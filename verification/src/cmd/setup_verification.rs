//! The setup of the verification of a project: which command decides whether the
//! work is done, and which quick checks run after an edit.
use vstd::prelude::*;
use crate::agent::ask::{Question, QuestionOption};
use crate::cmd::{line_views, Line, LineV};
use crate::table::{
    in_key_order, law_row_is_put, lemma_taken_and_put, put_row, row_views, row_with, spot, take_row,
    with_row,
};
use crate::text::{
    begins, byte_prefix, cat2, cat3, cat4, cut_bytes, decimal, ends, join, joined,
    law_numbers_are_read_back, parse_number, parsed_number,
    parted, same, signed_decimal, signed_text, size_text, split, split_on, split_once, texts,
    trim, trimmed,
};

verus! {

// ------------------------------------------------------------ candidates

/// What a command that was found is good for: it decides whether the work is
/// done, or it is a quick check after an edit.
#[derive(Clone, Copy, Debug, PartialEq, Eq, Structural)]
pub enum CandidateKind {
    Authoritative,
    PostEdit,
}

/// A command that was found in a project.
#[derive(Debug)]
pub struct Candidate {
    pub id: String,
    pub kind: CandidateKind,
    pub command: String,
    pub source: String,
    pub globs: Vec<String>,
}

/// What a [`Candidate`] stands for.
pub struct CandidateV {
    pub id: Seq<char>,
    pub kind: CandidateKind,
    pub command: Seq<char>,
    pub source: Seq<char>,
    pub globs: Seq<Seq<char>>,
}

impl View for Candidate {
    type V = CandidateV;

    open spec fn view(&self) -> CandidateV {
        CandidateV {
            id: self.id@,
            kind: self.kind,
            command: self.command@,
            source: self.source@,
            globs: texts(self.globs@),
        }
    }
}

/// What some candidates stand for.
pub open spec fn candidate_views(v: Seq<Candidate>) -> Seq<CandidateV> {
    v.map_values(|c: Candidate| c@)
}

/// The quick checks of one kind of project.
#[derive(Debug)]
pub struct Ecosystem {
    pub candidates: Vec<Candidate>,
}

impl View for Ecosystem {
    type V = Seq<CandidateV>;

    open spec fn view(&self) -> Seq<CandidateV> {
        candidate_views(self.candidates@)
    }
}

fn copy_candidate(c: &Candidate) -> (r: Candidate)
    ensures
        r@ == c@,
{
    let mut globs: Vec<String> = Vec::new();
    let mut i: usize = 0;
    while i < c.globs.len()
        invariant
            i <= c.globs@.len(),
            globs@.len() == i,
            forall|k: int| 0 <= k < i ==> (#[trigger] globs@[k])@ == c.globs@[k]@,
        decreases c.globs@.len() - i,
    {
        globs.push(c.globs[i].clone());
        i += 1;
    }
    assert(texts(globs@) =~= texts(c.globs@));
    Candidate {
        id: c.id.clone(),
        kind: c.kind,
        command: c.command.clone(),
        source: c.source.clone(),
        globs,
    }
}

/// The candidates that decide.
pub open spec fn gates_of(cands: Seq<CandidateV>) -> Seq<CandidateV>
    decreases cands.len(),
{
    if cands.len() == 0 {
        Seq::empty()
    } else if cands.last().kind is Authoritative {
        gates_of(cands.drop_last()).push(cands.last())
    } else {
        gates_of(cands.drop_last())
    }
}

/// The kind of project that a candidate belongs to: what stands in its id before
/// the first hyphen.
pub open spec fn ecosystem(id: Seq<char>) -> Seq<char> {
    match parted(id, '-') {
        Some((name, _)) => name,
        None => id,
    }
}

/// The quick checks by the kind of project, in the order of its name.
pub open spec fn groups_of(cands: Seq<CandidateV>) -> Seq<(Seq<char>, Seq<CandidateV>)>
    decreases cands.len(),
{
    if cands.len() == 0 {
        Seq::empty()
    } else {
        let rows = groups_of(cands.drop_last());
        let c = cands.last();
        if c.kind is PostEdit {
            let name = ecosystem(c.id);
            with_row(
                rows,
                name,
                (match row_with(rows, name) {
                    Some(list) => list,
                    None => Seq::empty(),
                }).push(c),
            )
        } else {
            rows
        }
    }
}

fn list_gates(cands: &Vec<Candidate>) -> (r: Vec<Candidate>)
    ensures
        candidate_views(r@) == gates_of(candidate_views(cands@)),
{
    let ghost cs = candidate_views(cands@);
    let mut out: Vec<Candidate> = Vec::new();
    let mut i: usize = 0;
    assert(cs.take(0) =~= Seq::empty());
    assert(candidate_views(out@) =~= Seq::empty());
    while i < cands.len()
        invariant
            i <= cands@.len(),
            cs == candidate_views(cands@),
            candidate_views(out@) == gates_of(cs.take(i as int)),
        decreases cands@.len() - i,
    {
        assert(cs.take(i + 1).drop_last() =~= cs.take(i as int));
        assert(cs.take(i + 1).last() == cands@[i as int]@);
        if let CandidateKind::Authoritative = cands[i].kind {
            let ghost before = candidate_views(out@);
            out.push(copy_candidate(&cands[i]));
            assert(candidate_views(out@) =~= before.push(cands@[i as int]@));
        }
        i += 1;
    }
    assert(cs.take(i as int) =~= cs);
    out
}

proof fn lemma_groups_in_order(cands: Seq<CandidateV>)
    ensures
        in_key_order(groups_of(cands)),
    decreases cands.len(),
{
    if cands.len() > 0 {
        lemma_groups_in_order(cands.drop_last());
        let rows = groups_of(cands.drop_last());
        let c = cands.last();
        let name = ecosystem(c.id);
        law_row_is_put(
            rows,
            name,
            (match row_with(rows, name) {
                Some(list) => list,
                None => Seq::empty(),
            }).push(c),
            name,
        );
    }
}

fn list_groups(cands: &Vec<Candidate>) -> (r: Vec<(String, Ecosystem)>)
    ensures
        row_views(r@) == groups_of(candidate_views(cands@)),
{
    let ghost cs = candidate_views(cands@);
    let mut out: Vec<(String, Ecosystem)> = Vec::new();
    let mut i: usize = 0;
    assert(cs.take(0) =~= Seq::empty());
    assert(row_views(out@) =~= Seq::empty());
    while i < cands.len()
        invariant
            i <= cands@.len(),
            cs == candidate_views(cands@),
            row_views(out@) == groups_of(cs.take(i as int)),
        decreases cands@.len() - i,
    {
        assert(cs.take(i + 1).drop_last() =~= cs.take(i as int));
        assert(cs.take(i + 1).last() == cands@[i as int]@);
        if let CandidateKind::PostEdit = cands[i].kind {
            let name = match split_once(cands[i].id.as_str(), '-') {
                Some((name, rest)) => name,
                None => cands[i].id.clone(),
            };
            let ghost rows = row_views(out@);
            proof {
                lemma_groups_in_order(cs.take(i as int));
            }
            let mut e = match take_row(&mut out, name.as_str()) {
                Some(e) => e,
                None => Ecosystem { candidates: Vec::new() },
            };
            let ghost list = match row_with(rows, name@) {
                Some(list) => list,
                None => Seq::empty(),
            };
            assert(e@ =~= list);
            e.candidates.push(copy_candidate(&cands[i]));
            assert(e@ =~= list.push(cands@[i as int]@));
            proof {
                if row_with(rows, name@) is Some {
                    lemma_taken_and_put(rows, name@, e@);
                }
            }
            put_row(&mut out, name, e);
        }
        i += 1;
    }
    assert(cs.take(i as int) =~= cs);
    out
}

// ------------------------------------------------------------ questions

/// What a question stands for; an option is its name and the line that shows it.
pub struct QuestionV {
    pub id: Seq<char>,
    pub context: Seq<char>,
    pub question: Seq<char>,
    pub options: Seq<(Seq<char>, Seq<char>)>,
}

/// What a [`Question`] stands for.
pub open spec fn question_view(q: Question) -> QuestionV {
    QuestionV {
        id: q.id@,
        context: q.context@,
        question: q.question@,
        options: option_views(q.options@),
    }
}

/// What some options stand for.
pub open spec fn option_views(v: Seq<QuestionOption>) -> Seq<(Seq<char>, Seq<char>)> {
    v.map_values(|o: QuestionOption| (o.label@, o.display@))
}

/// An option, shown with what it leads to.
pub open spec fn shown_option(label: Seq<char>, effect: Seq<char>) -> (Seq<char>, Seq<char>) {
    (label, label + " — "@ + effect)
}

fn new_option(label: &str, effect: &str) -> (r: QuestionOption)
    ensures
        (r.label@, r.display@) == shown_option(label@, effect@),
{
    QuestionOption { label: label.to_owned(), display: cat3(label, " — ", effect) }
}

fn new_question(id: &str, context: &str, question: &str, options: Vec<QuestionOption>) -> (r: Question)
    ensures
        question_view(r) == (QuestionV {
            id: id@,
            context: context@,
            question: question@,
            options: option_views(options@),
        }),
        r.options@ == options@,
{
    Question {
        id: id.to_owned(),
        context: context.to_owned(),
        question: question.to_owned(),
        options,
    }
}

/// The question on the command that decides.
pub open spec fn gate_question(gates: Seq<CandidateV>) -> QuestionV {
    let found = gates.map_values(
        |c: CandidateV|
            shown_option(c.command, "eseguito dopo Done; rilevato da "@ + c.source),
    );
    let own = found.push(
        shown_option(
            "Comando personalizzato"@,
            "inserisci manualmente il gate autorevole del progetto"@,
        ),
    );
    QuestionV {
        id: "test_command"@,
        context: "Il comando scelto diventa il gate autorevole eseguito dopo Done; un fallimento può richiedere un altro tentativo."@,
        question: "Quale comando deve essere autorevole?"@,
        options: if gates.len() == 0 {
            own.push(shown_option("Annulla"@, "non viene scritta alcuna configurazione"@))
        } else {
            own
        },
    }
}

fn ask_gate(gates: &Vec<Candidate>) -> (r: Question)
    ensures
        question_view(r) == gate_question(candidate_views(gates@)),
{
    let ghost cs = candidate_views(gates@);
    let ghost found = cs.map_values(
        |c: CandidateV|
            shown_option(c.command, "eseguito dopo Done; rilevato da "@ + c.source),
    );
    let mut options: Vec<QuestionOption> = Vec::new();
    let mut i: usize = 0;
    assert(option_views(options@) =~= found.take(0));
    while i < gates.len()
        invariant
            i <= gates@.len(),
            cs == candidate_views(gates@),
            found == cs.map_values(
                |c: CandidateV|
                    shown_option(c.command, "eseguito dopo Done; rilevato da "@ + c.source),
            ),
            option_views(options@) == found.take(i as int),
        decreases gates@.len() - i,
    {
        assert(cs[i as int] == gates@[i as int]@);
        let o = new_option(
            gates[i].command.as_str(),
            cat2("eseguito dopo Done; rilevato da ", gates[i].source.as_str()).as_str(),
        );
        let ghost before = option_views(options@);
        assert((o.label@, o.display@) == found[i as int]);
        options.push(o);
        assert(option_views(options@) =~= before.push(found[i as int]));
        assert(found.take(i as int).push(found[i as int]) =~= found.take(i + 1));
        i += 1;
    }
    assert(found.take(i as int) =~= found);
    let own = new_option(
        "Comando personalizzato",
        "inserisci manualmente il gate autorevole del progetto",
    );
    let ghost ov = (own.label@, own.display@);
    options.push(own);
    assert(option_views(options@) =~= found.push(ov));
    if gates.len() == 0 {
        let leave = new_option("Annulla", "non viene scritta alcuna configurazione");
        let ghost lv = (leave.label@, leave.display@);
        options.push(leave);
        assert(option_views(options@) =~= found.push(ov).push(lv));
    }
    new_question(
        "test_command",
        "Il comando scelto diventa il gate autorevole eseguito dopo Done; un fallimento può richiedere un altro tentativo.",
        "Quale comando deve essere autorevole?",
        options,
    )
}

/// The option that a quick check is.
pub open spec fn check_option(c: CandidateV) -> (Seq<char>, Seq<char>) {
    shown_option(
        c.command,
        "eseguito per "@ + joined(c.globs, ", "@) + "; rilevato da "@ + c.source,
    )
}

/// The question on the quick check for one kind of project.
pub open spec fn check_question(name: Seq<char>, list: Seq<CandidateV>) -> QuestionV {
    QuestionV {
        id: "post_edit_"@ + name,
        context: "Il controllo "@ + name
            + " è advisory: scatta dopo modifiche ai glob indicati e può segnalare errori prima di Done."@,
        question: "Quale controllo rapido usare per "@ + name + "?"@,
        options: list.map_values(|c: CandidateV| check_option(c)).push(
            shown_option(
                "Controllo personalizzato"@,
                "inserisci manualmente glob e comando post-edit"@,
            ),
        ).push(
            shown_option(
                "Nessun controllo rapido"@,
                "non eseguire controlli advisory per questo ecosistema"@,
            ),
        ),
    }
}

fn ask_check(name: &str, list: &Vec<Candidate>) -> (r: Question)
    ensures
        question_view(r) == check_question(name@, candidate_views(list@)),
{
    let ghost cs = candidate_views(list@);
    let ghost found = cs.map_values(|c: CandidateV| check_option(c));
    let mut options: Vec<QuestionOption> = Vec::new();
    let mut i: usize = 0;
    assert(option_views(options@) =~= found.take(0));
    while i < list.len()
        invariant
            i <= list@.len(),
            cs == candidate_views(list@),
            found == cs.map_values(|c: CandidateV| check_option(c)),
            option_views(options@) == found.take(i as int),
        decreases list@.len() - i,
    {
        assert(cs[i as int] == list@[i as int]@);
        let effect = cat4(
            "eseguito per ",
            join(&list[i].globs, ", ").as_str(),
            "; rilevato da ",
            list[i].source.as_str(),
        );
        let o = new_option(list[i].command.as_str(), effect.as_str());
        let ghost before = option_views(options@);
        assert((o.label@, o.display@) == found[i as int]);
        options.push(o);
        assert(option_views(options@) =~= before.push(found[i as int]));
        assert(found.take(i as int).push(found[i as int]) =~= found.take(i + 1));
        i += 1;
    }
    assert(found.take(i as int) =~= found);
    let own = new_option(
        "Controllo personalizzato",
        "inserisci manualmente glob e comando post-edit",
    );
    let none = new_option(
        "Nessun controllo rapido",
        "non eseguire controlli advisory per questo ecosistema",
    );
    let ghost ov = (own.label@, own.display@);
    let ghost nv = (none.label@, none.display@);
    options.push(own);
    options.push(none);
    assert(option_views(options@) =~= found.push(ov).push(nv));
    new_question(
        cat2("post_edit_", name).as_str(),
        cat3(
            "Il controllo ",
            name,
            " è advisory: scatta dopo modifiche ai glob indicati e può segnalare errori prima di Done.",
        ).as_str(),
        cat3("Quale controllo rapido usare per ", name, "?").as_str(),
        options,
    )
}

/// The question on a quick check, where none was found.
pub open spec fn manual_question() -> QuestionV {
    QuestionV {
        id: "post_edit_manual"@,
        context: "I controlli rapidi sono advisory e vengono eseguiti dopo modifiche ai file associati; non sostituiscono il gate autorevole."@,
        question: "Nessun controllo rapido affidabile rilevato. Configurarne uno?"@,
        options: seq![
            shown_option("Controllo personalizzato"@, "inserisci glob e comando da eseguire dopo le modifiche"@),
            shown_option("Nessun controllo rapido"@, "riceverai feedback solo dal gate autorevole dopo Done"@),
        ],
    }
}

fn ask_manual() -> (r: Question)
    ensures
        question_view(r) == manual_question(),
{
    let mut options: Vec<QuestionOption> = Vec::new();
    options.push(new_option("Controllo personalizzato", "inserisci glob e comando da eseguire dopo le modifiche"));
    options.push(new_option("Nessun controllo rapido", "riceverai feedback solo dal gate autorevole dopo Done"));
    let r = new_question("post_edit_manual", "I controlli rapidi sono advisory e vengono eseguiti dopo modifiche ai file associati; non sostituiscono il gate autorevole.", "Nessun controllo rapido affidabile rilevato. Configurarne uno?", options);
    assert(question_view(r).options =~= manual_question().options);
    r
}

/// The question on the confirmation of what is risky.
pub open spec fn risk_question() -> QuestionV {
    QuestionV {
        id: "high_risk"@,
        context: "Il preset usa il normale prompt Allow once/always/Deny per dipendenze, migrazioni, schemi e modifiche riconoscibili alle API pubbliche. Le operazioni ordinarie restano silenziose."@,
        question: "Abilitare la conferma per operazioni ad alto rischio?"@,
        options: seq![
            shown_option("Abilita high_risk"@, "aggiunge hooks.presets: [\"high_risk\"] alla modifica mostrata prima del salvataggio"@),
            shown_option("Lascia disabilitato"@, "non aggiunge alcun preset e conserva il comportamento attuale"@),
        ],
    }
}

fn ask_risk() -> (r: Question)
    ensures
        question_view(r) == risk_question(),
{
    let mut options: Vec<QuestionOption> = Vec::new();
    options.push(new_option("Abilita high_risk", "aggiunge hooks.presets: [\"high_risk\"] alla modifica mostrata prima del salvataggio"));
    options.push(new_option("Lascia disabilitato", "non aggiunge alcun preset e conserva il comportamento attuale"));
    let r = new_question("high_risk", "Il preset usa il normale prompt Allow once/always/Deny per dipendenze, migrazioni, schemi e modifiche riconoscibili alle API pubbliche. Le operazioni ordinarie restano silenziose.", "Abilitare la conferma per operazioni ad alto rischio?", options);
    assert(question_view(r).options =~= risk_question().options);
    r
}

/// The last question: to try and save, to save, to change, or to leave it.
pub open spec fn confirm_question() -> QuestionV {
    QuestionV {
        id: "confirm"@,
        context: "La modifica mostrata sopra verrà applicata atomicamente alla configurazione del progetto, preservando le altre chiavi."@,
        question: "Come procedere?"@,
        options: seq![
            shown_option("Esegui e salva"@, "prova ora il comando autorevole e salva solo dopo il risultato"@),
            shown_option("Salva senza eseguire"@, "scrive la configurazione senza verificarne ora il comando"@),
            shown_option("Modifica"@, "cambia manualmente comando autorevole e controlli rapidi"@),
            shown_option("Annulla"@, "non scrive alcuna modifica"@),
        ],
    }
}

fn ask_confirm() -> (r: Question)
    ensures
        question_view(r) == confirm_question(),
{
    let mut options: Vec<QuestionOption> = Vec::new();
    options.push(new_option("Esegui e salva", "prova ora il comando autorevole e salva solo dopo il risultato"));
    options.push(new_option("Salva senza eseguire", "scrive la configurazione senza verificarne ora il comando"));
    options.push(new_option("Modifica", "cambia manualmente comando autorevole e controlli rapidi"));
    options.push(new_option("Annulla", "non scrive alcuna modifica"));
    let r = new_question("confirm", "La modifica mostrata sopra verrà applicata atomicamente alla configurazione del progetto, preservando le altre chiavi.", "Come procedere?", options);
    assert(question_view(r).options =~= confirm_question().options);
    r
}

/// The question where the command failed.
pub open spec fn failed_question() -> QuestionV {
    QuestionV {
        id: "save_failed"@,
        context: "Il comando autorevole appena eseguito è fallito. Salvandolo, le esecuzioni future potranno essere bloccate finché il progetto non torna verde."@,
        question: "Il comando è fallito. Salvare comunque?"@,
        options: seq![
            shown_option("Non salvare"@, "torna alla configurazione senza registrare il comando fallito"@),
            shown_option("Salva comunque"@, "registra consapevolmente un gate attualmente rosso"@),
        ],
    }
}

fn ask_failed() -> (r: Question)
    ensures
        question_view(r) == failed_question(),
{
    let mut options: Vec<QuestionOption> = Vec::new();
    options.push(new_option("Non salvare", "torna alla configurazione senza registrare il comando fallito"));
    options.push(new_option("Salva comunque", "registra consapevolmente un gate attualmente rosso"));
    let r = new_question("save_failed", "Il comando autorevole appena eseguito è fallito. Salvandolo, le esecuzioni future potranno essere bloccate finché il progetto non torna verde.", "Il comando è fallito. Salvare comunque?", options);
    assert(question_view(r).options =~= failed_question().options);
    r
}

/// The line of an option; the first one is recommended.
pub open spec fn option_line(display: Seq<char>, i: nat) -> LineV {
    LineV::Out(
        "  "@ + decimal(i + 1) + ". "@ + display + (if i == 0 {
            " (raccomandato)"@
        } else {
            ""@
        }),
    )
}

/// The lines that put a question.
pub open spec fn question_lines(q: QuestionV) -> Seq<LineV> {
    seq![LineV::Out("\n"@ + q.question)] + (if trimmed(q.context).len() > 0 {
        seq![LineV::Out("  "@ + q.context)]
    } else {
        Seq::empty()
    }) + Seq::new(q.options.len(), |i: int| option_line(q.options[i].1, i as nat))
}

/// Puts a question; see [`question_lines`].
pub fn ask_round(q: &Question) -> (r: Vec<Line>)
    ensures
        line_views(r@) == question_lines(question_view(*q)),
{
    let ghost qv = question_view(*q);
    let mut out: Vec<Line> = Vec::new();
    out.push(Line::Out(cat2("\n", q.question.as_str())));
    assert(line_views(out@) =~= seq![LineV::Out("\n"@ + qv.question)]);
    let ghost head = line_views(out@);
    if !trim(q.context.as_str()).as_str().is_empty() {
        out.push(Line::Out(cat2("  ", q.context.as_str())));
        assert(line_views(out@) =~= head + seq![LineV::Out("  "@ + qv.context)]);
    } else {
        assert(head =~= head + Seq::<LineV>::empty());
    }
    let ghost front = line_views(out@);
    let ghost all = Seq::new(qv.options.len(), |i: int| option_line(qv.options[i].1, i as nat));
    let mut i: usize = 0;
    assert(front + all.take(0) =~= front);
    while i < q.options.len()
        invariant
            i <= q.options@.len(),
            qv == question_view(*q),
            all == Seq::new(qv.options.len(), |i: int| option_line(qv.options[i].1, i as nat)),
            line_views(out@) == front + all.take(i as int),
        decreases q.options@.len() - i,
    {
        assert(qv.options[i as int].1 == q.options@[i as int].display@);
        let size: usize = i;
        let mut text = cat4(
            "  ",
            size_text(size + 1).as_str(),
            ". ",
            q.options[i].display.as_str(),
        );
        crate::text::put(
            &mut text,
            if i == 0 {
                " (raccomandato)"
            } else {
                ""
            },
        );
        assert(LineV::Out(text@) == all[i as int]);
        let ghost before = line_views(out@);
        out.push(Line::Out(text));
        assert(line_views(out@) =~= before.push(all[i as int]));
        assert((front + all.take(i as int)).push(all[i as int]) =~= front + all.take(i + 1));
        i += 1;
    }
    assert(all.take(i as int) =~= all);
    out
}

/// The option that a text chooses among some, by its number from one on.
pub open spec fn choice(t: Seq<char>, options: nat) -> Option<nat> {
    match parsed_number(t, usize::MAX as nat) {
        Some(n) => if 1 <= n <= options {
            Some((n - 1) as nat)
        } else {
            None
        },
        None => None,
    }
}

fn choose_option(t: &str, options: usize) -> (r: Option<usize>)
    ensures
        match r {
            Some(i) => choice(t@, options as nat) == Some(i as nat) && i < options,
            None => choice(t@, options as nat) is None,
        },
{
    match parse_number(t, usize::MAX as u64) {
        Some(n) => if 1 <= n && n <= options as u64 {
            Some((n - 1) as usize)
        } else {
            None
        },
        None => None,
    }
}

// ------------------------------------------------------------ quick checks

/// The globs of a list: its pieces between commas, trimmed, without the empty
/// ones.
pub open spec fn globs_of(pieces: Seq<Seq<char>>) -> Seq<Seq<char>>
    decreases pieces.len(),
{
    if pieces.len() == 0 {
        Seq::empty()
    } else {
        let before = globs_of(pieces.drop_last());
        if trimmed(pieces.last()).len() > 0 {
            before.push(trimmed(pieces.last()))
        } else {
            before
        }
    }
}

/// The quick checks with a command under each of some globs.
pub open spec fn with_globs(
    post: Seq<(Seq<char>, Seq<char>)>,
    globs: Seq<Seq<char>>,
    command: Seq<char>,
) -> Seq<(Seq<char>, Seq<char>)>
    decreases globs.len(),
{
    if globs.len() == 0 {
        post
    } else {
        with_row(with_globs(post, globs.drop_last(), command), globs.last(), command)
    }
}

fn put_globs(post: &mut Vec<(String, String)>, globs: &Vec<String>, command: &str)
    ensures
        row_views(final(post)@) == with_globs(row_views(old(post)@), texts(globs@), command@),
{
    let ghost p0 = row_views(post@);
    let ghost gs = texts(globs@);
    let mut i: usize = 0;
    assert(gs.take(0) =~= Seq::empty());
    while i < globs.len()
        invariant
            i <= globs@.len(),
            gs == texts(globs@),
            row_views(post@) == with_globs(p0, gs.take(i as int), command@),
        decreases globs@.len() - i,
    {
        assert(gs.take(i + 1).drop_last() =~= gs.take(i as int));
        assert(gs.take(i + 1).last() == globs@[i as int]@);
        put_row(post, globs[i].clone(), command.to_owned());
        i += 1;
    }
    assert(gs.take(i as int) =~= gs);
}

/// Puts a command under each of the globs that a line lists.
pub fn add_manual_post(post: &mut Vec<(String, String)>, globs: &str, command: &str)
    ensures
        row_views(final(post)@) == with_globs(
            row_views(old(post)@),
            globs_of(split_on(globs@, ',')),
            command@,
        ),
{
    let pieces = split(globs, ',');
    let ghost ps = texts(pieces@);
    let mut list: Vec<String> = Vec::new();
    let mut i: usize = 0;
    assert(ps.take(0) =~= Seq::empty());
    assert(texts(list@) =~= Seq::empty());
    while i < pieces.len()
        invariant
            i <= pieces@.len(),
            ps == texts(pieces@),
            texts(list@) == globs_of(ps.take(i as int)),
        decreases pieces@.len() - i,
    {
        assert(ps.take(i + 1).drop_last() =~= ps.take(i as int));
        assert(ps.take(i + 1).last() == pieces@[i as int]@);
        let t = trim(pieces[i].as_str());
        if !t.as_str().is_empty() {
            let ghost before = texts(list@);
            let ghost tv = t@;
            list.push(t);
            assert(texts(list@) =~= before.push(tv));
        }
        i += 1;
    }
    assert(ps.take(i as int) =~= ps);
    put_globs(post, &list, command);
}

// ------------------------------------------------------------ the setup

/// What the setup chooses.
#[derive(Debug)]
pub struct Selection {
    pub authoritative: String,
    /// The commands by their globs, in the order of the globs.
    pub post_edit: Vec<(String, String)>,
    pub max_attempts: u32,
    pub high_risk: bool,
}

/// What a [`Selection`] stands for.
pub struct SelectionV {
    pub authoritative: Seq<char>,
    pub post_edit: Seq<(Seq<char>, Seq<char>)>,
    pub max_attempts: u32,
    pub high_risk: bool,
}

impl View for Selection {
    type V = SelectionV;

    open spec fn view(&self) -> SelectionV {
        SelectionV {
            authoritative: self.authoritative@,
            post_edit: row_views(self.post_edit@),
            max_attempts: self.max_attempts,
            high_risk: self.high_risk,
        }
    }
}

/// What the setup waits for.
#[derive(Clone, Copy, Debug, PartialEq, Eq, Structural)]
pub enum Phase {
    /// The choice of the command that decides.
    Gate,
    GateCommand,
    /// The choice of a quick check.
    Post,
    PostCommand,
    PostGlobs,
    Risk,
    /// The change is to be shown.
    Preview,
    Confirm,
    /// The command is to be run.
    Trial,
    SaveFailed,
    EditCommand,
    EditGlobs,
    EditPost,
    /// The selection is to be written.
    Save,
    Stop,
}

/// A setup under way.
#[derive(Debug)]
pub struct Setup {
    pub gates: Vec<Candidate>,
    pub groups: Vec<(String, Ecosystem)>,
    pub phase: Phase,
    /// The quick check that is asked for, or looked at.
    pub at: usize,
    /// The choices of the quick checks so far.
    pub answers: Vec<usize>,
    pub command: String,
    pub globs: String,
    pub selection: Selection,
}

/// What a [`Setup`] stands for.
pub struct SetupV {
    pub gates: Seq<CandidateV>,
    pub groups: Seq<(Seq<char>, Seq<CandidateV>)>,
    pub phase: Phase,
    pub at: nat,
    pub answers: Seq<usize>,
    pub command: Seq<char>,
    pub globs: Seq<char>,
    pub selection: SelectionV,
}

impl View for Setup {
    type V = SetupV;

    open spec fn view(&self) -> SetupV {
        SetupV {
            gates: candidate_views(self.gates@),
            groups: row_views(self.groups@),
            phase: self.phase,
            at: self.at as nat,
            answers: self.answers@,
            command: self.command@,
            globs: self.globs@,
            selection: self.selection@,
        }
    }
}

/// How many quick checks are asked for.
pub open spec fn checks_asked(s: SetupV) -> nat {
    if s.groups.len() == 0 {
        1
    } else {
        s.groups.len()
    }
}

/// An option is to be chosen.
pub open spec fn chooses(p: Phase) -> bool {
    p is Gate || p is Post || p is Risk || p is Confirm || p is SaveFailed
}

/// A text is to be written.
pub open spec fn writes(p: Phase) -> bool {
    p is GateCommand || p is PostCommand || p is PostGlobs || p is EditCommand || p is EditGlobs
        || p is EditPost
}

/// The question that is put.
pub open spec fn question_of(s: SetupV) -> QuestionV {
    match s.phase {
        Phase::Gate => gate_question(s.gates),
        Phase::Post => if s.groups.len() == 0 {
            manual_question()
        } else {
            check_question(s.groups[s.at as int].0, s.groups[s.at as int].1)
        },
        Phase::Risk => risk_question(),
        Phase::SaveFailed => failed_question(),
        _ => confirm_question(),
    }
}

/// The setup in another phase, with the question that is put there.
pub open spec fn entered(s: SetupV, p: Phase) -> (SetupV, Seq<LineV>) {
    let after = SetupV { phase: p, ..s };
    (
        after,
        if chooses(p) {
            question_lines(question_of(after))
        } else {
            Seq::empty()
        },
    )
}

/// The setup with a quick check under its globs.
pub open spec fn with_check(s: SetupV, globs: Seq<Seq<char>>, command: Seq<char>) -> SetupV {
    SetupV {
        selection: SelectionV {
            post_edit: with_globs(s.selection.post_edit, globs, command),
            ..s.selection
        },
        ..s
    }
}

/// The choices of the quick checks taken over, from the one looked at on: a
/// command that was found goes under its globs, one of the user's own is asked
/// for.
pub open spec fn resolved(s: SetupV) -> (SetupV, Seq<LineV>)
    decreases checks_asked(s) - s.at,
{
    if s.at >= checks_asked(s) {
        entered(s, Phase::Risk)
    } else {
        let i = s.answers[s.at as int];
        let next = SetupV { at: s.at + 1, ..s };
        if s.groups.len() == 0 {
            if i == 0 {
                entered(s, Phase::PostCommand)
            } else {
                resolved(next)
            }
        } else {
            let list = s.groups[s.at as int].1;
            if i < list.len() {
                resolved(with_check(next, list[i as int].globs, list[i as int].command))
            } else if i == list.len() {
                entered(s, Phase::PostCommand)
            } else {
                resolved(next)
            }
        }
    }
}

/// The setup given up.
pub open spec fn cancelled(s: SetupV) -> (SetupV, Seq<LineV>) {
    (
        SetupV { phase: Phase::Stop, ..s },
        seq![LineV::Out("Annullato; nessuna configurazione è stata scritta."@)],
    )
}

/// The setup with the command that decides; the quick checks come next.
pub open spec fn gated(s: SetupV, command: Seq<char>) -> (SetupV, Seq<LineV>) {
    entered(
        SetupV {
            at: 0,
            answers: Seq::empty(),
            selection: SelectionV { authoritative: command, ..s.selection },
            ..s
        },
        Phase::Post,
    )
}

/// The setup behind a choice.
pub open spec fn chose(s: SetupV, i: nat) -> (SetupV, Seq<LineV>) {
    match s.phase {
        Phase::Gate => if s.gates.len() == 0 && i == 1 {
            cancelled(s)
        } else if i == s.gates.len() {
            entered(s, Phase::GateCommand)
        } else {
            gated(s, s.gates[i as int].command)
        },
        Phase::Post => {
            let after = SetupV { answers: s.answers.push(i as usize), ..s };
            if s.at + 1 < checks_asked(s) {
                entered(SetupV { at: s.at + 1, ..after }, Phase::Post)
            } else {
                resolved(SetupV { at: 0, ..after })
            }
        },
        Phase::Risk => entered(
            SetupV { selection: SelectionV { high_risk: i == 0, ..s.selection }, ..s },
            Phase::Preview,
        ),
        Phase::Confirm => if i == 0 {
            entered(s, Phase::Trial)
        } else if i == 1 {
            entered(s, Phase::Save)
        } else if i == 2 {
            entered(s, Phase::EditCommand)
        } else {
            cancelled(s)
        },
        _ => if i == 1 {
            entered(s, Phase::Save)
        } else {
            entered(s, Phase::Preview)
        },
    }
}

/// The setup behind a text.
pub open spec fn wrote(s: SetupV, t: Seq<char>) -> (SetupV, Seq<LineV>) {
    match s.phase {
        Phase::GateCommand => gated(s, t),
        Phase::PostCommand => entered(SetupV { command: t, ..s }, Phase::PostGlobs),
        Phase::PostGlobs => resolved(
            SetupV { at: s.at + 1, ..with_check(s, globs_of(split_on(t, ',')), s.command) },
        ),
        Phase::EditCommand => entered(
            SetupV { selection: SelectionV { authoritative: t, ..s.selection }, ..s },
            Phase::EditGlobs,
        ),
        Phase::EditGlobs => {
            let cleared = SetupV {
                selection: SelectionV { post_edit: Seq::empty(), ..s.selection },
                ..s
            };
            if t == "-"@ {
                entered(cleared, Phase::Preview)
            } else {
                entered(SetupV { globs: t, ..cleared }, Phase::EditPost)
            }
        },
        _ => entered(with_check(s, globs_of(split_on(s.globs, ',')), t), Phase::Preview),
    }
}

/// The setup behind a line of the user, with what is said. A blank line is no
/// answer.
pub open spec fn answered(s: SetupV, line: Seq<char>) -> (SetupV, Seq<LineV>) {
    let t = trimmed(line);
    if t.len() == 0 {
        (s, Seq::empty())
    } else if chooses(s.phase) {
        match choice(t, question_of(s).options.len()) {
            Some(i) => chose(s, i),
            None => (s, seq![LineV::Error("Scelta non valida."@)]),
        }
    } else if writes(s.phase) {
        wrote(s, t)
    } else {
        (s, Seq::empty())
    }
}

/// What the user is asked; nothing where no line is waited for.
pub open spec fn asked(p: Phase) -> Option<Seq<char>> {
    match p {
        Phase::Gate => Some("Scelta: "@),
        Phase::Post => Some("Scelta: "@),
        Phase::Risk => Some("Scelta: "@),
        Phase::Confirm => Some("Scelta: "@),
        Phase::SaveFailed => Some("Scelta: "@),
        Phase::GateCommand => Some("Comando autorevole: "@),
        Phase::EditCommand => Some("Comando autorevole: "@),
        Phase::PostCommand => Some("Comando rapido: "@),
        Phase::EditPost => Some("Comando rapido: "@),
        Phase::PostGlobs => Some("Glob (separati da virgola): "@),
        Phase::EditGlobs => Some(
            "Glob rapidi (vuoto non consentito; usa '-' per nessuno): "@,
        ),
        Phase::Preview => None,
        Phase::Trial => None,
        Phase::Save => None,
        Phase::Stop => None,
    }
}

/// The setup is sound: there is a choice for each quick check that was asked for.
pub open spec fn sound(s: SetupV) -> bool {
    &&& s.phase is Post ==> s.at < checks_asked(s) && s.answers.len() == s.at
    &&& (s.phase is PostCommand || s.phase is PostGlobs) ==> s.at < checks_asked(s)
        && s.answers.len() == checks_asked(s)
}

/// How a setup begins, from the candidates.
pub open spec fn begun(cwd: Seq<char>, cands: Seq<CandidateV>) -> (SetupV, Seq<LineV>) {
    let s = SetupV {
        gates: gates_of(cands),
        groups: groups_of(cands),
        phase: Phase::Gate,
        at: 0,
        answers: Seq::empty(),
        command: ""@,
        globs: ""@,
        selection: SelectionV {
            authoritative: ""@,
            post_edit: Seq::empty(),
            max_attempts: 3,
            high_risk: false,
        },
    };
    (
        s,
        seq![LineV::Out("Verifica deterministica per "@ + cwd)] + question_lines(
            gate_question(s.gates),
        ),
    )
}

fn one(l: Line) -> (r: Vec<Line>)
    ensures
        line_views(r@) == seq![l@],
{
    let ghost lv = l@;
    let mut out: Vec<Line> = Vec::new();
    out.push(l);
    assert(line_views(out@) =~= seq![lv]);
    out
}

fn silent() -> (r: Vec<Line>)
    ensures
        line_views(r@) == Seq::<LineV>::empty(),
{
    let out: Vec<Line> = Vec::new();
    assert(line_views(out@) =~= Seq::empty());
    out
}

impl Setup {
    /// Begins a setup; see [`begun`].
    pub fn start(cwd: &str, candidates: &Vec<Candidate>) -> (r: (Setup, Vec<Line>))
        ensures
            (r.0@, line_views(r.1@)) == begun(cwd@, candidate_views(candidates@)),
            sound(r.0@),
    {
        let gates = list_gates(candidates);
        let groups = list_groups(candidates);
        let lines = ask_round(&ask_gate(&gates));
        let mut out: Vec<Line> = Vec::new();
        out.push(Line::Out(cat2("Verifica deterministica per ", cwd)));
        let ghost head = seq![LineV::Out("Verifica deterministica per "@ + cwd@)];
        assert(line_views(out@) =~= head);
        append(&mut out, lines);
        let post_edit: Vec<(String, String)> = Vec::new();
        assert(row_views(post_edit@) =~= Seq::empty());
        let answers: Vec<usize> = Vec::new();
        assert(answers@ =~= Seq::empty());
        (
            Setup {
                gates,
                groups,
                phase: Phase::Gate,
                at: 0,
                answers,
                command: "".to_owned(),
                globs: "".to_owned(),
                selection: Selection {
                    authoritative: "".to_owned(),
                    post_edit,
                    max_attempts: 3,
                    high_risk: false,
                },
            },
            out,
        )
    }

    /// Puts the question of the phase.
    fn question(&self) -> (r: Question)
        requires
            sound(self@),
        ensures
            question_view(r) == question_of(self@),
    {
        match self.phase {
            Phase::Gate => ask_gate(&self.gates),
            Phase::Post => {
                if self.groups.len() == 0 {
                    ask_manual()
                } else {
                    let i: usize = self.at;
                    assert(self@.groups[i as int] == (self.groups@[i as int].0@, self.groups@[i as int].1@));
                    ask_check(self.groups[i].0.as_str(), &self.groups[i].1.candidates)
                }
            },
            Phase::Risk => ask_risk(),
            Phase::SaveFailed => ask_failed(),
            _ => ask_confirm(),
        }
    }

    fn enter(&mut self, p: Phase) -> (r: Vec<Line>)
        requires
            sound(SetupV { phase: p, ..old(self)@ }),
        ensures
            (final(self)@, line_views(r@)) == entered(old(self)@, p),
            sound(final(self)@),
    {
        self.phase = p;
        match p {
            Phase::Gate | Phase::Post | Phase::Risk | Phase::Confirm | Phase::SaveFailed => {
                let q = self.question();
                ask_round(&q)
            },
            _ => silent(),
        }
    }

    fn resolve(&mut self) -> (r: Vec<Line>)
        requires
            old(self)@.answers.len() == checks_asked(old(self)@),
        ensures
            (final(self)@, line_views(r@)) == resolved(old(self)@),
            sound(final(self)@),
    {
        let ghost s0 = self@;
        let n: usize = if self.groups.len() == 0 {
            1
        } else {
            self.groups.len()
        };
        while self.at < n
            invariant
                s0 == old(self)@,
                n == checks_asked(self@),
                self@.answers.len() == n,
                resolved(self@) == resolved(s0),
            decreases n - self.at,
        {
            let i: usize = self.answers[self.at];
            if self.groups.len() == 0 {
                if i == 0 {
                    return self.enter(Phase::PostCommand);
                }
            } else {
                let at: usize = self.at;
                let ghost before = self@;
                assert(before.groups[at as int] == (self.groups@[at as int].0@, self.groups@[at as int].1@));
                let list = &self.groups[at].1.candidates;
                if i < list.len() {
                    assert(before.groups[at as int].1[i as int] == list@[i as int]@);
                    put_globs(
                        &mut self.selection.post_edit,
                        &list[i].globs,
                        list[i].command.as_str(),
                    );
                } else if i == list.len() {
                    return self.enter(Phase::PostCommand);
                }
            }
            self.at = self.at + 1;
        }
        self.enter(Phase::Risk)
    }

    fn cancel(&mut self) -> (r: Vec<Line>)
        ensures
            (final(self)@, line_views(r@)) == cancelled(old(self)@),
            sound(final(self)@),
    {
        self.phase = Phase::Stop;
        one(Line::Out("Annullato; nessuna configurazione è stata scritta.".to_owned()))
    }

    fn gate(&mut self, command: String) -> (r: Vec<Line>)
        ensures
            (final(self)@, line_views(r@)) == gated(old(self)@, command@),
            sound(final(self)@),
    {
        self.at = 0;
        self.answers = Vec::new();
        assert(self.answers@ =~= Seq::empty());
        self.selection.authoritative = command;
        self.enter(Phase::Post)
    }

    fn take_choice(&mut self, i: usize) -> (r: Vec<Line>)
        requires
            sound(old(self)@),
            chooses(old(self)@.phase),
            i < question_of(old(self)@).options.len(),
        ensures
            (final(self)@, line_views(r@)) == chose(old(self)@, i as nat),
            sound(final(self)@),
    {
        match self.phase {
            Phase::Gate => {
                if self.gates.len() == 0 && i == 1 {
                    self.cancel()
                } else if i == self.gates.len() {
                    self.enter(Phase::GateCommand)
                } else {
                    assert(self@.gates[i as int] == self.gates@[i as int]@);
                    let command = self.gates[i].command.clone();
                    self.gate(command)
                }
            },
            Phase::Post => {
                let n: usize = if self.groups.len() == 0 {
                    1
                } else {
                    self.groups.len()
                };
                self.answers.push(i);
                let next: usize = self.at + 1;
                if next < n {
                    self.at = next;
                    self.enter(Phase::Post)
                } else {
                    self.at = 0;
                    self.resolve()
                }
            },
            Phase::Risk => {
                self.selection.high_risk = i == 0;
                self.enter(Phase::Preview)
            },
            Phase::Confirm => {
                if i == 0 {
                    self.enter(Phase::Trial)
                } else if i == 1 {
                    self.enter(Phase::Save)
                } else if i == 2 {
                    self.enter(Phase::EditCommand)
                } else {
                    self.cancel()
                }
            },
            _ => {
                if i == 1 {
                    self.enter(Phase::Save)
                } else {
                    self.enter(Phase::Preview)
                }
            },
        }
    }

    fn take_text(&mut self, t: String) -> (r: Vec<Line>)
        requires
            sound(old(self)@),
            writes(old(self)@.phase),
        ensures
            (final(self)@, line_views(r@)) == wrote(old(self)@, t@),
            sound(final(self)@),
    {
        match self.phase {
            Phase::GateCommand => self.gate(t),
            Phase::PostCommand => {
                self.command = t;
                self.enter(Phase::PostGlobs)
            },
            Phase::PostGlobs => {
                add_manual_post(
                    &mut self.selection.post_edit,
                    t.as_str(),
                    self.command.as_str(),
                );
                let size: usize = self.groups.len();
                assert(self.at <= size);
                assert(self.at < size || size == 0);
                self.at = self.at + 1;
                self.resolve()
            },
            Phase::EditCommand => {
                self.selection.authoritative = t;
                self.enter(Phase::EditGlobs)
            },
            Phase::EditGlobs => {
                self.selection.post_edit = Vec::new();
                assert(row_views(self.selection.post_edit@) =~= Seq::empty());
                if same(t.as_str(), "-") {
                    self.enter(Phase::Preview)
                } else {
                    self.globs = t;
                    self.enter(Phase::EditPost)
                }
            },
            _ => {
                add_manual_post(
                    &mut self.selection.post_edit,
                    self.globs.as_str(),
                    t.as_str(),
                );
                self.enter(Phase::Preview)
            },
        }
    }

    /// Takes a line of the user; see [`answered`].
    pub fn answer(&mut self, line: &str) -> (r: Vec<Line>)
        requires
            sound(old(self)@),
        ensures
            (final(self)@, line_views(r@)) == answered(old(self)@, line@),
            sound(final(self)@),
    {
        let t = trim(line);
        if t.as_str().is_empty() {
            return silent();
        }
        match self.phase {
            Phase::Gate | Phase::Post | Phase::Risk | Phase::Confirm | Phase::SaveFailed => {
                let q = self.question();
                assert(question_view(q).options.len() == q.options@.len());
                match choose_option(t.as_str(), q.options.len()) {
                    Some(i) => self.take_choice(i),
                    None => one(Line::Error("Scelta non valida.".to_owned())),
                }
            },
            Phase::GateCommand | Phase::PostCommand | Phase::PostGlobs | Phase::EditCommand
            | Phase::EditGlobs | Phase::EditPost => self.take_text(t),
            _ => silent(),
        }
    }

    /// Shows the change that is to be written, given as text, and asks how to go
    /// on.
    pub fn preview(&mut self, cwd: &str, patch: &str) -> (r: Vec<Line>)
        ensures
            final(self)@ == (SetupV { phase: Phase::Confirm, ..old(self)@ }),
            line_views(r@) == seq![
                LineV::Out("\nDirectory: "@ + cwd@),
                LineV::Out("Modifica esatta:\n"@ + patch@),
            ] + question_lines(confirm_question()),
            sound(final(self)@),
    {
        let lines = self.enter(Phase::Confirm);
        let mut out: Vec<Line> = Vec::new();
        out.push(Line::Out(cat2("\nDirectory: ", cwd)));
        out.push(Line::Out(cat2("Modifica esatta:\n", patch)));
        let ghost head = seq![
            LineV::Out("\nDirectory: "@ + cwd@),
            LineV::Out("Modifica esatta:\n"@ + patch@),
        ];
        assert(line_views(out@) =~= head);
        append(&mut out, lines);
        out
    }

    /// Takes over how the command that decides ran: where it failed, the user is
    /// asked whether it is to be written all the same.
    pub fn ran(&mut self, ok: bool) -> (r: Vec<Line>)
        ensures
            (final(self)@, line_views(r@)) == entered(
                old(self)@,
                if ok {
                    Phase::Save
                } else {
                    Phase::SaveFailed
                },
            ),
            sound(final(self)@),
    {
        if ok {
            self.enter(Phase::Save)
        } else {
            self.enter(Phase::SaveFailed)
        }
    }

    /// Says what the user is asked; see [`asked`].
    pub fn prompt(&self) -> (r: Option<&'static str>)
        ensures
            match r {
                Some(t) => asked(self.phase) == Some(t@),
                None => asked(self.phase) is None,
            },
    {
        match self.phase {
            Phase::Gate | Phase::Post | Phase::Risk | Phase::Confirm | Phase::SaveFailed => Some(
                "Scelta: ",
            ),
            Phase::GateCommand | Phase::EditCommand => Some("Comando autorevole: "),
            Phase::PostCommand | Phase::EditPost => Some("Comando rapido: "),
            Phase::PostGlobs => Some("Glob (separati da virgola): "),
            Phase::EditGlobs => Some("Glob rapidi (vuoto non consentito; usa '-' per nessuno): "),
            _ => None,
        }
    }
}

fn append(out: &mut Vec<Line>, more: Vec<Line>)
    ensures
        line_views(final(out)@) == line_views(old(out)@) + line_views(more@),
{
    let ghost a = line_views(out@);
    let ghost b = line_views(more@);
    let mut rest = more;
    out.append(&mut rest);
    assert(line_views(out@) =~= a + b);
}

// ------------------------------------------------------------ messages

/// What is said where nobody can be asked.
pub const NO_TTY: &'static str = "setup-verification richiede un TTY; nessuna configurazione è stata scritta. Usa --json per ispezionare i candidati.";

/// What is said of a configuration that was written.
pub fn saved_line(path: &str) -> (r: String)
    ensures
        r@ == "Configurazione salvata atomicamente in "@ + path@,
{
    cat2("Configurazione salvata atomicamente in ", path)
}

/// How much of what a command wrote is shown, in bytes.
pub const OUTPUT_LIMIT: usize = 16_000;

/// Cuts a text to the limit, at the end of a character.
pub fn truncate(value: &str) -> (r: String)
    ensures
        r@ == byte_prefix(value@, OUTPUT_LIMIT as nat),
{
    cut_bytes(value, OUTPUT_LIMIT)
}

/// What is shown of a command that ended: what it wrote, and how it ended.
pub fn run_command(stdout: &str, stderr: &str, code: Option<i32>) -> (r: (String, String))
    ensures
        r.0@ == byte_prefix(stdout@, OUTPUT_LIMIT as nat) + byte_prefix(
            stderr@,
            OUTPUT_LIMIT as nat,
        ),
        r.1@ == "exit: "@ + (match code {
            Some(c) => signed_decimal(c as int),
            None => "signal"@,
        }),
{
    let shown = cat2(truncate(stdout).as_str(), truncate(stderr).as_str());
    let exit = match code {
        Some(c) => cat2("exit: ", signed_text(c).as_str()),
        None => "exit: signal".to_owned(),
    };
    proof {
        reveal_strlit("exit: ");
        reveal_strlit("signal");
        reveal_strlit("exit: signal");
        assert("exit: signal"@ =~= "exit: "@ + "signal"@);
    }
    (shown, exit)
}

// ------------------------------------------------------------ laws

/// Nothing is written unless the user says so: an answer leads to the writing only
/// where the change was shown, or where the command failed and the user wants it
/// all the same.
pub proof fn law_only_consent_saves(s: SetupV, line: Seq<char>)
    requires
        !(s.phase is Save),
        answered(s, line).0.phase is Save,
    ensures
        s.phase is Confirm || s.phase is SaveFailed,
{
    if chooses(s.phase) {
        match choice(trimmed(line), question_of(s).options.len()) {
            Some(i) => {
                if s.phase is Post {
                    let after = SetupV { answers: s.answers.push(i as usize), ..s };
                    lemma_resolved_phase(SetupV { at: 0, ..after });
                }
            },
            None => {},
        }
    } else if s.phase is PostGlobs {
        lemma_resolved_phase(
            SetupV {
                at: s.at + 1,
                ..with_check(s, globs_of(split_on(trimmed(line), ',')), s.command)
            },
        );
    }
}

proof fn lemma_resolved_phase(s: SetupV)
    ensures
        resolved(s).0.phase is Risk || resolved(s).0.phase is PostCommand,
    decreases checks_asked(s) - s.at,
{
    if s.at < checks_asked(s) {
        let i = s.answers[s.at as int];
        let next = SetupV { at: s.at + 1, ..s };
        if s.groups.len() == 0 {
            if i != 0 {
                lemma_resolved_phase(next);
            }
        } else {
            let list = s.groups[s.at as int].1;
            if i < list.len() {
                lemma_resolved_phase(with_check(next, list[i as int].globs, list[i as int].command));
            } else if i != list.len() {
                lemma_resolved_phase(next);
            }
        }
    }
}

/// A command that failed is never written without a question.
pub proof fn law_failed_command_is_asked_about(s: SetupV)
    ensures
        entered(s, Phase::SaveFailed).0.phase is SaveFailed,
        entered(s, Phase::SaveFailed).1 == question_lines(failed_question()),
        chose(entered(s, Phase::SaveFailed).0, 0).0.phase is Preview,
{
}

proof fn lemma_globs_in_order(
    post: Seq<(Seq<char>, Seq<char>)>,
    globs: Seq<Seq<char>>,
    command: Seq<char>,
)
    requires
        in_key_order(post),
    ensures
        in_key_order(with_globs(post, globs, command)),
    decreases globs.len(),
{
    if globs.len() > 0 {
        lemma_globs_in_order(post, globs.drop_last(), command);
        law_row_is_put(
            with_globs(post, globs.drop_last(), command),
            globs.last(),
            command,
            globs.last(),
        );
    }
}

/// Each of the globs that were given holds the command, and a glob that was not
/// given keeps its own; no glob stands twice.
pub proof fn law_globs_hold_the_command(
    post: Seq<(Seq<char>, Seq<char>)>,
    globs: Seq<Seq<char>>,
    command: Seq<char>,
    glob: Seq<char>,
)
    requires
        in_key_order(post),
    ensures
        in_key_order(with_globs(post, globs, command)),
        globs.contains(glob) ==> row_with(with_globs(post, globs, command), glob) == Some(command),
        !globs.contains(glob) ==> row_with(with_globs(post, globs, command), glob) == row_with(
            post,
            glob,
        ),
    decreases globs.len(),
{
    lemma_globs_in_order(post, globs, command);
    if globs.len() > 0 {
        let front = globs.drop_last();
        law_globs_hold_the_command(post, front, command, glob);
        law_row_is_put(with_globs(post, front, command), globs.last(), command, glob);
        if globs.contains(glob) && glob != globs.last() {
            let k = choose|k: int| 0 <= k < globs.len() && globs[k] == glob;
            assert(front[k] == glob);
        }
        if front.contains(glob) {
            let k = choose|k: int| 0 <= k < front.len() && front[k] == glob;
            assert(globs[k] == glob);
        }
        assert(globs[globs.len() - 1] == globs.last());
    }
}

/// Every candidate that decides is offered, in the order in which they were found, and no
/// other.
pub proof fn law_deciding_candidates_are_offered(a: Seq<CandidateV>, b: Seq<CandidateV>, c: CandidateV)
    ensures
        gates_of(a + b) == gates_of(a) + gates_of(b),
        gates_of(a).contains(c) <==> a.contains(c) && c.kind is Authoritative,
    decreases a.len() + b.len(),
{
    if b.len() > 0 {
        law_deciding_candidates_are_offered(a, b.drop_last(), c);
        assert((a + b).drop_last() =~= a + b.drop_last());
        assert((a + b).last() == b.last());
        let (x, y) = (gates_of(a), gates_of(b.drop_last()));
        if b.last().kind is Authoritative {
            assert((x + y).push(b.last()) =~= x + y.push(b.last()));
        }
    } else {
        assert(a + b =~= a);
        assert(gates_of(a) + gates_of(b) =~= gates_of(a));
        if a.len() > 0 {
            let front = a.drop_last();
            law_deciding_candidates_are_offered(front, Seq::empty(), c);
            let (before, all) = (gates_of(front), gates_of(a));
            if all.contains(c) {
                let k = choose|k: int| 0 <= k < all.len() && all[k] == c;
                if k < before.len() {
                    assert(before[k] == c);
                    let j = choose|j: int| 0 <= j < front.len() && front[j] == c;
                    assert(a[j] == c);
                } else {
                    assert(a[a.len() - 1] == c);
                }
            }
            if a.contains(c) && c.kind is Authoritative {
                let j = choose|j: int| 0 <= j < a.len() && a[j] == c;
                if j < front.len() {
                    assert(front[j] == c);
                    let k = choose|k: int| 0 <= k < before.len() && before[k] == c;
                    assert(all[k] == c);
                } else {
                    assert(all[all.len() - 1] == c);
                }
            }
        }
    }
}

/// The quick checks for one kind of project, in the order in which they were found.
pub open spec fn checks_for(cands: Seq<CandidateV>, name: Seq<char>) -> Seq<CandidateV>
    decreases cands.len(),
{
    if cands.len() == 0 {
        Seq::empty()
    } else if cands.last().kind is PostEdit && ecosystem(cands.last().id) == name {
        checks_for(cands.drop_last(), name).push(cands.last())
    } else {
        checks_for(cands.drop_last(), name)
    }
}

/// A kind of project is asked about exactly where a quick check was found for it, and it
/// is offered all of them, in order.
pub proof fn law_quick_checks_are_offered(cands: Seq<CandidateV>, name: Seq<char>)
    ensures
        row_with(groups_of(cands), name) == (if checks_for(cands, name).len() == 0 {
            None
        } else {
            Some(checks_for(cands, name))
        }),
    decreases cands.len(),
{
    if cands.len() > 0 {
        let rows = groups_of(cands.drop_last());
        let c = cands.last();
        law_quick_checks_are_offered(cands.drop_last(), name);
        if c.kind is PostEdit {
            let own = ecosystem(c.id);
            law_quick_checks_are_offered(cands.drop_last(), own);
            lemma_groups_in_order(cands.drop_last());
            let list = (match row_with(rows, own) {
                Some(list) => list,
                None => Seq::empty(),
            }).push(c);
            law_row_is_put(rows, own, list, name);
            if own == name && checks_for(cands.drop_last(), name).len() == 0 {
                assert(checks_for(cands, name) =~= list);
            }
        }
    } else {
        let none: Seq<(Seq<char>, Seq<CandidateV>)> = Seq::empty();
        assert(spot(none, name) == 0);
    }
}

/// An option is chosen by its number in the list, from one on; any other number chooses
/// none.
pub proof fn law_options_are_chosen_by_number(n: nat, options: nat)
    requires
        n <= usize::MAX,
    ensures
        1 <= n <= options ==> choice(decimal(n), options) == Some((n - 1) as nat),
        n == 0 || n > options ==> choice(decimal(n), options) is None,
{
    law_numbers_are_read_back(n, n, usize::MAX as nat);
}

/// A question is put with all its options, each in a line of its own with the number that
/// chooses it.
pub proof fn law_every_option_is_shown(q: QuestionV, i: int)
    requires
        0 <= i < q.options.len(),
    ensures
        ({
            let lines = question_lines(q);
            let line = lines[lines.len() - q.options.len() + i];
            &&& line is Out
            &&& begins(line->Out_0, "  "@ + decimal((i + 1) as nat) + ". "@ + q.options[i].1)
            &&& lines[0] is Out
            &&& ends(lines[0]->Out_0, q.question)
        }),
{
    let lines = question_lines(q);
    let own = "  "@ + decimal((i + 1) as nat) + ". "@ + q.options[i].1;
    let line = lines[lines.len() - q.options.len() + i];
    assert(line == option_line(q.options[i].1, i as nat));
    assert(line->Out_0.subrange(0, own.len() as int) =~= own);
    let head = "\n"@ + q.question;
    assert(lines[0] == LineV::Out(head));
    assert(head.subrange(head.len() - q.question.len(), head.len() as int) =~= q.question);
}

/// The command behind the number that the user chooses is the one that decides; one of
/// their own is taken as they wrote it.
pub proof fn law_chosen_command_decides(s: SetupV, i: int, line: Seq<char>)
    ensures
        s.phase is Gate && 0 <= i < s.gates.len() < usize::MAX && trimmed(line) == decimal(
            (i + 1) as nat,
        ) ==> {
            let after = answered(s, line).0;
            &&& after.selection.authoritative == s.gates[i].command
            &&& after.phase is Post
            &&& after.at == 0
        },
        s.phase is Gate && i == s.gates.len() < usize::MAX && trimmed(line) == decimal(
            (i + 1) as nat,
        ) ==> answered(s, line).0.phase is GateCommand,
        s.phase is GateCommand && trimmed(line).len() > 0 ==> answered(
            s,
            line,
        ).0.selection.authoritative == trimmed(line),
        s.phase is EditCommand && trimmed(line).len() > 0 ==> answered(
            s,
            line,
        ).0.selection.authoritative == trimmed(line),
{
    if s.phase is Gate && 0 <= i <= s.gates.len() < usize::MAX && trimmed(line) == decimal(
        (i + 1) as nat,
    ) {
        law_numbers_are_read_back((i + 1) as nat, 0, usize::MAX as nat);
        assert(gate_question(s.gates).options.len() > s.gates.len());
        assert(choice(trimmed(line), question_of(s).options.len()) == Some(i as nat));
    }
}

/// The globs that the user lists are all taken, without the blanks around them, and
/// nothing else is.
pub proof fn law_listed_globs_are_taken(pieces: Seq<Seq<char>>, glob: Seq<char>)
    ensures
        globs_of(pieces).contains(glob) <==> glob.len() > 0 && exists|i: int|
            0 <= i < pieces.len() && trimmed(#[trigger] pieces[i]) == glob,
    decreases pieces.len(),
{
    if pieces.len() > 0 {
        let front = pieces.drop_last();
        let (before, all) = (globs_of(front), globs_of(pieces));
        law_listed_globs_are_taken(front, glob);
        if all.contains(glob) {
            let k = choose|k: int| 0 <= k < all.len() && all[k] == glob;
            if k < before.len() {
                assert(before[k] == glob);
                let i = choose|i: int| 0 <= i < front.len() && trimmed(#[trigger] front[i]) == glob;
                assert(pieces[i] == front[i]);
            } else {
                assert(trimmed(pieces[pieces.len() - 1]) == glob);
            }
        }
        if glob.len() > 0 && exists|i: int|
            0 <= i < pieces.len() && trimmed(#[trigger] pieces[i]) == glob {
            let i = choose|i: int| 0 <= i < pieces.len() && trimmed(#[trigger] pieces[i]) == glob;
            if i < front.len() {
                assert(front[i] == pieces[i]);
                let k = choose|k: int| 0 <= k < before.len() && before[k] == glob;
                assert(all[k] == glob);
            } else {
                assert(all[all.len() - 1] == glob);
            }
        }
    }
}

/// The quick check that was chosen for the `k`-th kind of project.
pub open spec fn chosen_check(s: SetupV, k: int) -> CandidateV {
    s.groups[k].1[s.answers[k] as int]
}

/// Where a check that was found is chosen for every kind of project, each of them runs for
/// all its globs, unless a later one has the glob too.
pub proof fn law_chosen_checks_are_kept(s: SetupV, k: int, glob: Seq<char>)
    requires
        in_key_order(s.selection.post_edit),
        s.groups.len() > 0,
        s.answers.len() == s.groups.len(),
        s.at <= k < s.groups.len(),
        forall|j: int|
            s.at <= j < s.groups.len() ==> (#[trigger] s.answers[j]) < s.groups[j].1.len(),
        chosen_check(s, k).globs.contains(glob),
        forall|j: int|
            k < j < s.groups.len() ==> !(#[trigger] chosen_check(s, j)).globs.contains(glob),
    ensures
        resolved(s).0.phase is Risk,
        row_with(resolved(s).0.selection.post_edit, glob) == Some(chosen_check(s, k).command),
    decreases s.groups.len() - s.at,
{
    let c = chosen_check(s, s.at as int);
    let next = with_check(SetupV { at: s.at + 1, ..s }, c.globs, c.command);
    assert(s.answers[s.at as int] < s.groups[s.at as int].1.len());
    assert(resolved(s) == resolved(next));
    law_globs_hold_the_command(s.selection.post_edit, c.globs, c.command, glob);
    assert forall|j: int| 0 <= j < s.groups.len() implies #[trigger] chosen_check(
        next,
        j,
    ) == chosen_check(s, j) by {}
    if k == s.at {
        lemma_other_checks_stay(next, glob);
    } else {
        law_chosen_checks_are_kept(next, k, glob);
    }
}

proof fn lemma_other_checks_stay(s: SetupV, glob: Seq<char>)
    requires
        in_key_order(s.selection.post_edit),
        s.groups.len() > 0,
        s.answers.len() == s.groups.len(),
        forall|j: int|
            s.at <= j < s.groups.len() ==> (#[trigger] s.answers[j]) < s.groups[j].1.len(),
        forall|j: int|
            s.at <= j < s.groups.len() ==> !(#[trigger] chosen_check(s, j)).globs.contains(glob),
    ensures
        resolved(s).0.phase is Risk,
        row_with(resolved(s).0.selection.post_edit, glob) == row_with(
            s.selection.post_edit,
            glob,
        ),
    decreases s.groups.len() - s.at,
{
    if s.at < s.groups.len() {
        let c = chosen_check(s, s.at as int);
        let next = with_check(SetupV { at: s.at + 1, ..s }, c.globs, c.command);
        assert(s.answers[s.at as int] < s.groups[s.at as int].1.len());
        assert(resolved(s) == resolved(next));
        law_globs_hold_the_command(s.selection.post_edit, c.globs, c.command, glob);
        assert forall|j: int| 0 <= j < s.groups.len() implies #[trigger] chosen_check(
        next,
        j,
    ) == chosen_check(s, j) by {}
        lemma_other_checks_stay(next, glob);
    }
}

/// The first option switches the confirmation of risky calls on and the second off; the
/// command and the quick checks that were chosen stay.
pub proof fn law_risk_is_confirmed_as_chosen(s: SetupV)
    requires
        s.phase is Risk,
    ensures
        chose(s, 0).0.selection.high_risk,
        !chose(s, 1).0.selection.high_risk,
        chose(s, 0).0.phase is Preview && chose(s, 1).0.phase is Preview,
        chose(s, 0).0.selection.authoritative == s.selection.authoritative,
        chose(s, 1).0.selection.post_edit == s.selection.post_edit,
{
}

/// What is confirmed is what is done: the first option tries the command, the second
/// writes, the third changes, and the last leaves everything as it was; the selection
/// stays whatever is chosen.
pub proof fn law_confirmation_is_followed(s: SetupV, i: nat)
    requires
        s.phase is Confirm,
    ensures
        chose(s, 0).0.phase is Trial,
        chose(s, 1).0.phase is Save,
        chose(s, 2).0.phase is EditCommand,
        chose(s, 3).0.phase is Stop,
        chose(s, i).0.selection == s.selection,
{
}

} // verus!
