//! Hooks around tool calls: the checks that run after edits, the guard before a
//! call, the filters over its result, and the word of the `stop` hooks. The
//! commands are run elsewhere; here is decided which of them run, with what
//! input, and what their exit codes mean.
use vstd::prelude::*;
use crate::ablate::{disabled_hook, off};
use crate::json::{
    add_field, field, field_views, fields_in, items_in, js, json_views, no_fields, obj,
    rendered_json, settled_json, text_field, text_in, Json, JsonV,
};
use crate::patterns::{find_parts, glob_matches, globbed, regex_parts};
pub use crate::permissions::PreVerdict;
use crate::permissions::PreVerdictV;
use crate::risk::{high_risk_reason, risk_of};
use crate::text::{
    begins, byte_len, byte_prefix, cat2, cat3, cat4, cat5, cat7, cut_bytes, decimal, ends, holds,
    law_cut_keeps_what_fits, lemma_pieces, lemma_split_goes_on, lemma_trim_end_behind, lemma_trim_end_of_spoken, lines, lines_of, occurs_at, put,
    same, signed_decimal, signed_text, size_text, split_on, texts, trim, trim_back, trim_end,
    trim_front, trim_start, trimmed, utf8_len,
};

verus! {

/// How many bytes of the output of a failed check are shown.
pub const MAX_OUTPUT: usize = 4000;

// ------------------------------------------------------------ diagnostics

/// `path:line[:col][:] `, which compilers put in front of a diagnostic.
pub const DIAG_PREFIX: &'static str = r"^\s*\S+:\d+(:\d+)?:?\s+";

/// A line without the location in front of it, given what the pattern of a
/// location finds in it.
pub open spec fn identity_given(
    line: Seq<char>,
    found: Option<(Seq<char>, Seq<char>, Seq<char>)>,
) -> Seq<char> {
    match found {
        Some((before, location, behind)) => behind,
        None => trim_start(line),
    }
}

/// What makes a diagnostic the same when it moves: the line without white space
/// at its end and without its location.
pub open spec fn identity(line: Seq<char>) -> Seq<char> {
    identity_given(trim_end(line), regex_parts(DIAG_PREFIX@, trim_end(line)))
}

/// Computes [`identity_given`].
pub fn identity_from(line: &str, found: Option<(String, String, String)>) -> (r: String)
    ensures
        r@ == identity_given(
            line@,
            match found {
                Some((a, b, c)) => Some((a@, b@, c@)),
                None => None,
            },
        ),
{
    match found {
        Some((_, _, behind)) => behind,
        None => trim_front(line),
    }
}

/// Computes [`identity`].
pub fn diagnostic_identity(line: &str) -> (r: String)
    ensures
        r@ == identity(line@),
{
    let line = trim_back(line);
    let found = find_parts(DIAG_PREFIX, line.as_str());
    identity_from(line.as_str(), found)
}

/// What a ledger makes of the lines of one check: the identities it knows
/// afterwards, the lines that were new, and how many were not.
pub open spec fn reduced_lines(known: Set<Seq<char>>, ls: Seq<Seq<char>>) -> (
    Set<Seq<char>>,
    Seq<char>,
    nat,
)
    decreases ls.len(),
{
    if ls.len() == 0 {
        (known, Seq::empty(), 0)
    } else {
        let (k, fresh, repeated) = reduced_lines(known, ls.drop_last());
        if trimmed(ls.last()).len() == 0 {
            (k, fresh, repeated)
        } else if k.contains(identity(ls.last())) {
            (k, fresh, repeated + 1)
        } else {
            (k.insert(identity(ls.last())), fresh + ls.last() + "\n"@, repeated)
        }
    }
}

/// What the ledger decided about the output of one check.
#[derive(Debug, PartialEq, Eq)]
pub struct Reduced {
    /// The lines never shown for this command before, in order.
    pub fresh: String,
    /// How many lines were held back as already reported.
    pub repeated: usize,
}

/// The diagnostics that were already shown, command by command.
#[derive(Debug)]
pub struct DiagnosticsLedger {
    entries: Vec<(String, Vec<String>)>,
}

/// The identities that the entries hold for a command.
pub open spec fn known_to(entries: Seq<(Seq<char>, Set<Seq<char>>)>, cmd: Seq<char>) -> Set<
    Seq<char>,
>
    decreases entries.len(),
{
    if entries.len() == 0 {
        Set::empty()
    } else if entries[0].0 == cmd {
        entries[0].1
    } else {
        known_to(entries.drop_first(), cmd)
    }
}

/// What the entries of a ledger stand for.
pub open spec fn ledger_view(entries: Seq<(String, Vec<String>)>) -> Seq<(
    Seq<char>,
    Set<Seq<char>>,
)> {
    entries.map_values(|e: (String, Vec<String>)| (e.0@, texts(e.1@).to_set()))
}

impl DiagnosticsLedger {
    /// The identities already shown for a command.
    pub closed spec fn known(&self, cmd: Seq<char>) -> Set<Seq<char>> {
        known_to(ledger_view(self.entries@), cmd)
    }

    /// A ledger of nothing.
    pub fn new() -> (l: DiagnosticsLedger)
        ensures
            forall|cmd: Seq<char>| #[trigger] l.known(cmd) == Set::<Seq<char>>::empty(),
    {
        let l = DiagnosticsLedger { entries: Vec::new() };
        proof {
            assert(ledger_view(l.entries@) =~= Seq::empty());
        }
        l
    }

    /// Takes note of the output of a command, and says what of it is new; see
    /// [`reduced_lines`]. What is known of other commands stays.
    pub fn reduce(&mut self, cmd: &str, output: &str) -> (r: Reduced)
        ensures
            ({
                let (known, fresh, repeated) = reduced_lines(
                    old(self).known(cmd@),
                    lines_of(output@),
                );
                &&& final(self).known(cmd@) == known
                &&& r.fresh@ == trim_end(fresh)
                &&& r.repeated == repeated
            }),
            forall|other: Seq<char>|
                other != cmd@ ==> #[trigger] final(self).known(other) == old(self).known(other),
    {
        let mut at: usize = 0;
        let ghost before = ledger_view(self.entries@);
        assert(before.skip(0) =~= before);
        while at < self.entries.len() && !same(self.entries[at].0.as_str(), cmd)
            invariant
                at <= self.entries@.len(),
                before == ledger_view(self.entries@),
                self.entries@ == old(self).entries@,
                forall|k: int| 0 <= k < at ==> (#[trigger] before[k]).0 != cmd@,
            decreases self.entries@.len() - at,
        {
            assert(before[at as int].0 == self.entries@[at as int].0@);
            at += 1;
        }
        assert(at < self.entries@.len() ==> before[at as int].0 == self.entries@[at as int].0@);
        if at == self.entries.len() {
            self.entries.push((cmd.to_owned(), Vec::new()));
        }
        let ghost mid = ledger_view(self.entries@);
        proof {
            if at == before.len() {
                assert(texts(self.entries@[at as int].1@).to_set() =~= Set::empty());
                assert(mid =~= before.push((cmd@, Set::empty())));
            }
            assert forall|other: Seq<char>| known_to(mid, other) == known_to(before, other) by {
                if at == before.len() {
                    lemma_known_push(before, (cmd@, Set::empty()), other);
                    if other == cmd@ {
                        lemma_unknown(before, cmd@);
                    }
                }
            }
            lemma_known_at(mid, cmd@, at as int);
        }
        let all = lines(output);
        let ghost ls = lines_of(output@);
        let ghost start = known_to(before, cmd@);
        let mut seen: Vec<String> = Vec::new();
        std::mem::swap(&mut seen, &mut self.entries[at].1);
        let ghost emptied = self.entries@;
        assert(texts(seen@).to_set() == mid[at as int].1);
        let mut fresh = String::new();
        let mut repeated: usize = 0;
        let mut i: usize = 0;
        assert(ls.take(0) =~= Seq::empty());
        while i < all.len()
            invariant
                i <= all@.len(),
                ls == texts(all@),
                texts(seen@).to_set() == reduced_lines(start, ls.take(i as int)).0,
                fresh@ == reduced_lines(start, ls.take(i as int)).1,
                repeated == reduced_lines(start, ls.take(i as int)).2,
                repeated <= i,
                self.entries@ == emptied,
            decreases all@.len() - i,
        {
            assert(ls.take(i + 1).drop_last() =~= ls.take(i as int));
            assert(ls[i as int] == all@[i as int]@);
            let line = all[i].as_str();
            let blank = trim(line);
            if !blank.as_str().is_empty() {
                let id = diagnostic_identity(line);
                let ghost idv = id@;
                let ghost sv = texts(seen@);
                let is_known = known_text(&seen, id.as_str());
                if is_known {
                    repeated += 1;
                } else {
                    seen.push(id);
                    assert(texts(seen@) =~= sv.push(idv));
                    proof {
                        lemma_push_set(sv, idv);
                    }
                    put(&mut fresh, line);
                    put(&mut fresh, "\n");
                }
            }
            i += 1;
        }
        assert(ls.take(i as int) =~= ls);
        let ghost sv = texts(seen@).to_set();
        self.entries[at].1 = seen;
        proof {
            let after = ledger_view(self.entries@);
            assert(after =~= mid.update(at as int, (cmd@, sv)));
            lemma_known_at(after, cmd@, at as int);
            assert forall|other: Seq<char>| other != cmd@ implies known_to(after, other)
                == known_to(before, other) by {
                lemma_known_update(mid, at as int, (cmd@, sv), other);
            }
        }
        let fresh = trim_back(fresh.as_str());
        Reduced { fresh, repeated }
    }

    /// Forgets everything that was shown.
    pub fn clear(&mut self)
        ensures
            forall|cmd: Seq<char>| #[trigger] final(self).known(cmd) == Set::<Seq<char>>::empty(),
    {
        self.entries.clear();
        assert(ledger_view(self.entries@) =~= Seq::empty());
    }
}

fn known_text(seen: &Vec<String>, t: &str) -> (b: bool)
    ensures
        b == texts(seen@).to_set().contains(t@),
{
    let ghost sv = texts(seen@);
    let mut i: usize = 0;
    while i < seen.len()
        invariant
            i <= seen@.len(),
            sv == texts(seen@),
            forall|k: int| 0 <= k < i ==> #[trigger] sv[k] != t@,
        decreases seen@.len() - i,
    {
        assert(sv[i as int] == seen@[i as int]@);
        if same(seen[i].as_str(), t) {
            assert(sv.contains(t@));
            return true;
        }
        i += 1;
    }
    assert(!sv.contains(t@));
    false
}

proof fn lemma_push_set(s: Seq<Seq<char>>, x: Seq<char>)
    ensures
        s.push(x).to_set() == s.to_set().insert(x),
{
    assert forall|y: Seq<char>| s.push(x).to_set().contains(y) == s.to_set().insert(x).contains(y) by {
        if s.contains(y) {
            let k = choose|k: int| 0 <= k < s.len() && s[k] == y;
            assert(s.push(x)[k] == y);
        }
        if y == x {
            assert(s.push(x)[s.len() as int] == y);
        }
        if s.push(x).contains(y) {
            let k = choose|k: int| 0 <= k < s.push(x).len() && s.push(x)[k] == y;
            if k < s.len() {
                assert(s[k] == y);
            }
        }
    }
    assert(s.push(x).to_set() =~= s.to_set().insert(x));
}

proof fn lemma_known_push(
    e: Seq<(Seq<char>, Set<Seq<char>>)>,
    x: (Seq<char>, Set<Seq<char>>),
    cmd: Seq<char>,
)
    requires
        x.1 == Set::<Seq<char>>::empty(),
    ensures
        known_to(e.push(x), cmd) == known_to(e, cmd),
    decreases e.len(),
{
    if e.len() == 0 {
        let rest = e.push(x).drop_first();
        assert(rest.len() == 0);
        assert(known_to(rest, cmd) == Set::<Seq<char>>::empty());
    } else {
        assert(e.push(x).drop_first() =~= e.drop_first().push(x));
        lemma_known_push(e.drop_first(), x, cmd);
    }
}

proof fn lemma_unknown(e: Seq<(Seq<char>, Set<Seq<char>>)>, cmd: Seq<char>)
    requires
        forall|k: int| 0 <= k < e.len() ==> (#[trigger] e[k]).0 != cmd,
    ensures
        known_to(e, cmd) == Set::<Seq<char>>::empty(),
    decreases e.len(),
{
    if e.len() > 0 {
        assert(e[0].0 != cmd);
        assert forall|k: int| 0 <= k < e.drop_first().len() implies (#[trigger] e.drop_first()[k]).0
            != cmd by {
            assert(e[k + 1].0 != cmd);
        }
        lemma_unknown(e.drop_first(), cmd);
    }
}

proof fn lemma_known_at(e: Seq<(Seq<char>, Set<Seq<char>>)>, cmd: Seq<char>, at: int)
    requires
        0 <= at < e.len(),
        e[at].0 == cmd,
        forall|k: int| 0 <= k < at ==> (#[trigger] e[k]).0 != cmd,
    ensures
        known_to(e, cmd) == e[at].1,
    decreases e.len(),
{
    if at > 0 {
        assert(e[0].0 != cmd);
        assert forall|k: int| 0 <= k < at - 1 implies (#[trigger] e.drop_first()[k]).0 != cmd by {
            assert(e[k + 1].0 != cmd);
        }
        lemma_known_at(e.drop_first(), cmd, at - 1);
    }
}

proof fn lemma_known_update(
    e: Seq<(Seq<char>, Set<Seq<char>>)>,
    at: int,
    x: (Seq<char>, Set<Seq<char>>),
    cmd: Seq<char>,
)
    requires
        0 <= at < e.len(),
        e[at].0 == x.0,
        cmd != x.0,
    ensures
        known_to(e.update(at, x), cmd) == known_to(e, cmd),
    decreases e.len(),
{
    if at == 0 {
        assert(e.update(at, x).drop_first() =~= e.drop_first());
    } else {
        assert(e.update(at, x).drop_first() =~= e.drop_first().update(at - 1, x));
        lemma_known_update(e.drop_first(), at - 1, x, cmd);
    }
}

/// What was shown is known, and stays known, as more lines come.
pub proof fn law_reported_lines_stay_known(known: Set<Seq<char>>, ls: Seq<Seq<char>>)
    ensures
        known.subset_of(reduced_lines(known, ls).0),
        forall|i: int|
            0 <= i < ls.len() && trimmed(#[trigger] ls[i]).len() > 0 ==> reduced_lines(
                known,
                ls,
            ).0.contains(identity(ls[i])),
    decreases ls.len(),
{
    if ls.len() > 0 {
        law_reported_lines_stay_known(known, ls.drop_last());
        assert forall|i: int| 0 <= i < ls.len() && trimmed(#[trigger] ls[i]).len() > 0 implies
            reduced_lines(known, ls).0.contains(identity(ls[i])) by {
            if i < ls.len() - 1 {
                assert(ls.drop_last()[i] == ls[i]);
            }
        }
    }
}

/// The lines that are not blank.
pub open spec fn spoken(ls: Seq<Seq<char>>) -> nat
    decreases ls.len(),
{
    if ls.len() == 0 {
        0
    } else if trimmed(ls.last()).len() == 0 {
        spoken(ls.drop_last())
    } else {
        spoken(ls.drop_last()) + 1
    }
}

/// Lines that are all known give nothing new: they are counted, not shown.
pub proof fn law_known_lines_are_not_shown_again(known: Set<Seq<char>>, ls: Seq<Seq<char>>)
    requires
        forall|i: int|
            0 <= i < ls.len() && trimmed(#[trigger] ls[i]).len() > 0 ==> known.contains(
                identity(ls[i]),
            ),
    ensures
        reduced_lines(known, ls) == (known, Seq::<char>::empty(), spoken(ls)),
    decreases ls.len(),
{
    if ls.len() > 0 {
        assert forall|i: int|
            0 <= i < ls.drop_last().len() && trimmed(#[trigger] ls.drop_last()[i]).len()
                > 0 implies known.contains(identity(ls.drop_last()[i])) by {
            assert(ls[i] == ls.drop_last()[i]);
        }
        law_known_lines_are_not_shown_again(known, ls.drop_last());
        assert(ls[ls.len() - 1] == ls.last());
    }
}

/// The same output a second time shows nothing: every line of it is known by
/// then, and each is counted as repeated.
pub proof fn law_second_report_shows_nothing(known: Set<Seq<char>>, ls: Seq<Seq<char>>)
    ensures
        reduced_lines(reduced_lines(known, ls).0, ls).1 == Seq::<char>::empty(),
        reduced_lines(reduced_lines(known, ls).0, ls).2 == spoken(ls),
{
    law_reported_lines_stay_known(known, ls);
    law_known_lines_are_not_shown_again(reduced_lines(known, ls).0, ls);
}

/// The lines that are new, in the order in which they come.
pub open spec fn shown(known: Set<Seq<char>>, ls: Seq<Seq<char>>) -> Seq<Seq<char>>
    decreases ls.len(),
{
    if ls.len() == 0 {
        Seq::empty()
    } else {
        let before = shown(known, ls.drop_last());
        if trimmed(ls.last()).len() == 0 || reduced_lines(known, ls.drop_last()).0.contains(
            identity(ls.last()),
        ) {
            before
        } else {
            before.push(ls.last())
        }
    }
}

/// Where the lines of [`shown`] stand.
pub open spec fn shown_at(known: Set<Seq<char>>, ls: Seq<Seq<char>>) -> Seq<int>
    decreases ls.len(),
{
    if ls.len() == 0 {
        Seq::empty()
    } else {
        let before = shown_at(known, ls.drop_last());
        if trimmed(ls.last()).len() == 0 || reduced_lines(known, ls.drop_last()).0.contains(
            identity(ls.last()),
        ) {
            before
        } else {
            before.push(ls.len() - 1)
        }
    }
}

/// Some lines, each with its newline.
pub open spec fn stacked(ls: Seq<Seq<char>>) -> Seq<char>
    decreases ls.len(),
{
    if ls.len() == 0 {
        Seq::empty()
    } else {
        stacked(ls.drop_last()) + ls.last() + "\n"@
    }
}

/// The new lines are shown as they are and in their order, and no line is both
/// shown and counted: with those that are counted they are all that are not blank.
pub proof fn law_new_lines_keep_their_order(known: Set<Seq<char>>, ls: Seq<Seq<char>>)
    ensures
        ({
            let (_, fresh, repeated) = reduced_lines(known, ls);
            let (new, at) = (shown(known, ls), shown_at(known, ls));
            &&& fresh == stacked(new)
            &&& new.len() + repeated == spoken(ls)
            &&& at.len() == new.len()
            &&& forall|j: int|
                0 <= j < new.len() ==> 0 <= #[trigger] at[j] < ls.len() && new[j] == ls[at[j]]
                    && trimmed(new[j]).len() > 0
            &&& forall|i: int, j: int|
                0 <= i < j < at.len() ==> #[trigger] at[i] < #[trigger] at[j]
        }),
    decreases ls.len(),
{
    if ls.len() > 0 {
        law_new_lines_keep_their_order(known, ls.drop_last());
        let (new, at) = (shown(known, ls), shown_at(known, ls));
        let (old_new, old_at) = (shown(known, ls.drop_last()), shown_at(known, ls.drop_last()));
        assert forall|j: int| 0 <= j < new.len() implies 0 <= #[trigger] at[j] < ls.len() && new[j]
            == ls[at[j]] && trimmed(new[j]).len() > 0 by {
            if j < old_new.len() {
                assert(at[j] == old_at[j]);
                assert(ls.drop_last()[old_at[j]] == ls[old_at[j]]);
            }
        }
        assert forall|i: int, j: int| 0 <= i < j < at.len() implies #[trigger] at[i]
            < #[trigger] at[j] by {
            assert(at[i] == old_at[i]);
            if j < old_at.len() {
                assert(at[j] == old_at[j]);
            }
        }
        if new.len() > old_new.len() {
            assert(new.drop_last() =~= old_new);
        }
    } else {
        assert(stacked(shown(known, ls)) =~= Seq::empty());
    }
}

proof fn lemma_stacked_lines(ls: Seq<Seq<char>>)
    requires
        forall|k: int|
            0 <= k < ls.len() ==> trimmed(#[trigger] ls[k]).len() > 0 && !ls[k].contains('\n'),
    ensures
        split_on(stacked(ls), '\n').len() == ls.len() + 1,
        split_on(stacked(ls), '\n').last().len() == 0,
        lines_of(trim_end(stacked(ls))).len() == ls.len(),
    decreases ls.len(),
{
    reveal_strlit("\n");
    if ls.len() > 0 {
        let front = stacked(ls.drop_last());
        let line = ls.last();
        assert(trimmed(ls[ls.len() - 1]).len() > 0 && !ls[ls.len() - 1].contains('\n'));
        assert forall|k: int| 0 <= k < ls.drop_last().len() implies trimmed(
            #[trigger] ls.drop_last()[k],
        ).len() > 0 && !ls.drop_last()[k].contains('\n') by {
            assert(ls.drop_last()[k] == ls[k]);
        }
        lemma_stacked_lines(ls.drop_last());
        lemma_split_goes_on(front, line, '\n');
        assert(stacked(ls) =~= (front + line).push('\n'));
        assert(stacked(ls).drop_last() =~= front + line);
        lemma_trim_end_of_spoken(line);
        let cut = trim_end(line);
        lemma_trim_end_behind(front, line);
        assert(trim_end(stacked(ls)) == front + cut);
        let n = choose|n: int| 0 <= n <= line.len() && cut == #[trigger] line.take(n);
        assert(!cut.contains('\n')) by {
            if cut.contains('\n') {
                let j = choose|j: int| 0 <= j < cut.len() && cut[j] == '\n';
                assert(line[j] == '\n');
            }
        }
        lemma_split_goes_on(front, cut, '\n');
        assert(split_on(front + cut, '\n').last().len() > 0);
    } else {
        assert(trim_end(stacked(ls)) =~= Seq::empty());
    }
}

proof fn lemma_lines_hold_no_newline(s: Seq<char>)
    ensures
        forall|k: int| 0 <= k < lines_of(s).len() ==> !(#[trigger] lines_of(s)[k]).contains('\n'),
{
    lemma_pieces(s, '\n');
    let pieces = split_on(s, '\n');
    let ls = lines_of(s);
    assert forall|k: int| 0 <= k < ls.len() implies !(#[trigger] ls[k]).contains('\n') by {
        assert(!pieces[k].contains('\n'));
        if ls[k].contains('\n') {
            let j = choose|j: int| 0 <= j < ls[k].len() && ls[k][j] == '\n';
            assert(pieces[k][j] == '\n');
        }
    }
}

/// Every line of an output that is not blank is either shown or counted as
/// repeated: the lines of what is shown and the count make up all of them.
pub proof fn law_every_line_is_shown_or_counted(known: Set<Seq<char>>, output: Seq<char>)
    ensures
        ({
            let (_, fresh, repeated) = reduced_lines(known, lines_of(output));
            lines_of(trim_end(fresh)).len() + repeated == spoken(lines_of(output))
        }),
{
    let ls = lines_of(output);
    law_new_lines_keep_their_order(known, ls);
    lemma_lines_hold_no_newline(output);
    let (new, at) = (shown(known, ls), shown_at(known, ls));
    assert forall|k: int| 0 <= k < new.len() implies trimmed(#[trigger] new[k]).len() > 0
        && !new[k].contains('\n') by {
        assert(0 <= at[k] < ls.len());
        assert(!ls[at[k]].contains('\n'));
    }
    lemma_stacked_lines(new);
}

/// A line with the identity of one that came before, such as the same diagnostic
/// at another place, is counted and not shown.
pub proof fn law_same_diagnostic_is_repeated(
    known: Set<Seq<char>>,
    ls: Seq<Seq<char>>,
    i: int,
    line: Seq<char>,
)
    requires
        0 <= i < ls.len(),
        trimmed(ls[i]).len() > 0,
        trimmed(line).len() > 0,
        identity(line) == identity(ls[i]),
    ensures
        reduced_lines(known, ls.push(line)) == (
            reduced_lines(known, ls).0,
            reduced_lines(known, ls).1,
            reduced_lines(known, ls).2 + 1,
        ),
{
    law_reported_lines_stay_known(known, ls);
    assert(ls.push(line).drop_last() =~= ls);
}

// ------------------------------------------------------------ post-edit checks

/// How a check ended: it passed, it failed and said why, or it came to no
/// verdict.
#[derive(Debug, PartialEq)]
pub enum CheckOutcome {
    Passed,
    Failed(String),
    Incomplete(String),
}

/// The output of a failed check as it is shown: both streams trimmed, one below
/// the other, cut to its first bytes.
pub open spec fn failure_text(stdout: Seq<char>, stderr: Seq<char>) -> Seq<char> {
    let out = trimmed(stdout);
    let err = trimmed(stderr);
    let text = if err.len() == 0 {
        out
    } else if out.len() == 0 {
        err
    } else {
        out + "\n"@ + err
    };
    if utf8_len(text) > MAX_OUTPUT {
        byte_prefix(text, MAX_OUTPUT as nat) + "\n… [check output truncated]"@
    } else {
        text
    }
}

/// Computes [`failure_text`].
pub fn failed_output(stdout: &str, stderr: &str) -> (r: String)
    ensures
        r@ == failure_text(stdout@, stderr@),
{
    let mut text = trim(stdout);
    let err = trim(stderr);
    if !err.as_str().is_empty() {
        if !text.as_str().is_empty() {
            put(&mut text, "\n");
            put(&mut text, err.as_str());
        } else {
            text = err;
        }
    }
    if byte_len(text.as_str()) > MAX_OUTPUT {
        let mut cut = cut_bytes(text.as_str(), MAX_OUTPUT);
        put(&mut cut, "\n… [check output truncated]");
        cut
    } else {
        text
    }
}

/// The checks that run after edits: each a glob of paths and a command, in the
/// order of the configuration, and what was already reported.
#[derive(Debug)]
pub struct PostEditChecks {
    pub rules: Vec<(String, String)>,
    pub ledger: DiagnosticsLedger,
}

/// What some rules stand for.
pub open spec fn rules_view(v: Seq<(String, String)>) -> Seq<(Seq<char>, Seq<char>)> {
    v.map_values(|r: (String, String)| (r.0@, r.1@))
}

/// The fields that hold a text, as rules.
pub open spec fn text_rules(fields: Seq<(Seq<char>, JsonV)>) -> Seq<(Seq<char>, Seq<char>)>
    decreases fields.len(),
{
    if fields.len() == 0 {
        Seq::empty()
    } else {
        let before = text_rules(fields.drop_last());
        match text_in(fields.last().1) {
            Some(t) => before.push((fields.last().0, t)),
            None => before,
        }
    }
}

/// The rules in a section of the configuration; anything but an object holds
/// none.
pub open spec fn configured_rules(v: Option<JsonV>) -> Seq<(Seq<char>, Seq<char>)> {
    match v {
        Some(j) => match fields_in(j) {
            Some(fields) => text_rules(fields),
            None => Seq::empty(),
        },
        None => Seq::empty(),
    }
}

/// The glob matches one of the paths.
pub open spec fn matches_some(glob: Seq<char>, paths: Seq<Seq<char>>) -> bool {
    exists|i: int| 0 <= i < paths.len() && globbed(glob, #[trigger] paths[i])
}

/// The commands that run for some edited paths: those whose glob matches one of
/// them, each once, in the order of the rules.
pub open spec fn commands_for(rules: Seq<(Seq<char>, Seq<char>)>, paths: Seq<Seq<char>>) -> Seq<
    Seq<char>,
>
    decreases rules.len(),
{
    if rules.len() == 0 {
        Seq::empty()
    } else {
        let before = commands_for(rules.drop_last(), paths);
        if !before.contains(rules.last().1) && matches_some(rules.last().0, paths) {
            before.push(rules.last().1)
        } else {
            before
        }
    }
}

/// What is reported of one check; `fresh` and `repeated` are what the ledger
/// says of its output, where the ledger is asked.
pub open spec fn check_report(
    cmd: Seq<char>,
    outcome: CheckOutcome,
    dedup: bool,
    fresh: Seq<char>,
    repeated: nat,
) -> Seq<char> {
    match outcome {
        CheckOutcome::Passed => Seq::empty(),
        CheckOutcome::Incomplete(output) => "\n\n[system] post-edit check did not complete — this is verifier/infrastructure evidence, not a code diagnostic. Do not repeat the same command blindly; continue with a cheaper targeted check or the final oracle:\n$ "@
            + cmd + "\n"@ + output@,
        CheckOutcome::Failed(output) => if !dedup {
            "\n\n[system] post-edit check failed — fix before proceeding:\n$ "@ + cmd + "\n"@
                + output@
        } else if fresh.len() == 0 {
            "\n\n[system] post-edit check still failing — "@ + decimal(repeated)
                + " diagnostic(s) already reported above, unchanged:\n$ "@ + cmd
        } else if repeated == 0 {
            "\n\n[system] post-edit check failed — fix before proceeding:\n$ "@ + cmd + "\n"@ + fresh
        } else {
            "\n\n[system] post-edit check failed — fix before proceeding:\n$ "@ + cmd + "\n"@ + fresh
                + "\n(+"@ + decimal(repeated)
                + " diagnostic(s) already reported above, unchanged)"@
        },
    }
}

/// The ledger is asked about the outcome.
pub open spec fn ledger_asked(outcome: CheckOutcome, dedup: bool) -> bool {
    outcome is Failed && dedup
}

impl PostEditChecks {
    /// The globs and commands, in order.
    pub open spec fn view(&self) -> Seq<(Seq<char>, Seq<char>)> {
        rules_view(self.rules@)
    }

    /// Checks by these rules, with nothing reported yet.
    pub fn new(rules: Vec<(String, String)>) -> (c: PostEditChecks)
        ensures
            c@ == rules_view(rules@),
            forall|cmd: Seq<char>| #[trigger] c.ledger.known(cmd) == Set::<Seq<char>>::empty(),
    {
        PostEditChecks { rules, ledger: DiagnosticsLedger::new() }
    }

    /// Checks by the rules of a section of the configuration; whatever it does
    /// not hold is no rule, and never an error.
    pub fn from_value(v: Option<&Json>) -> (c: PostEditChecks)
        ensures
            c@ == configured_rules(
                match v {
                    Some(j) => Some(j@),
                    None => None,
                },
            ),
            forall|cmd: Seq<char>| #[trigger] c.ledger.known(cmd) == Set::<Seq<char>>::empty(),
    {
        let mut rules: Vec<(String, String)> = Vec::new();
        assert(rules_view(rules@) =~= Seq::empty());
        if let Some(j) = v {
            if let Some(fields) = j.as_object() {
                let ghost fs = field_views(fields@);
                let mut i: usize = 0;
                assert(fs.take(0) =~= Seq::empty());
                while i < fields.len()
                    invariant
                        i <= fields@.len(),
                        fs == field_views(fields@),
                        rules_view(rules@) == text_rules(fs.take(i as int)),
                    decreases fields@.len() - i,
                {
                    assert(fs.take(i + 1).drop_last() =~= fs.take(i as int));
                    assert(fs[i as int] == (fields@[i as int].0@, fields@[i as int].1@));
                    let ghost before = rules_view(rules@);
                    if let Some(cmd) = fields[i].1.as_str() {
                        rules.push((fields[i].0.clone(), cmd.to_owned()));
                        assert(rules_view(rules@) =~= before.push((fs[i as int].0, cmd@)));
                    }
                    i += 1;
                }
                assert(fs.take(i as int) =~= fs);
            }
        }
        PostEditChecks::new(rules)
    }

    /// The checks of the configuration file, given its text: those under
    /// `post_edit_check`. A file that is missing or cannot be read holds none.
    pub fn load(config: Option<&str>) -> (c: PostEditChecks)
        ensures
            c@ == configured_rules(
                match config {
                    Some(t) => match crate::json::parsed_json(t@) {
                        Some(j) => field(j, "post_edit_check"@),
                        None => None,
                    },
                    None => None,
                },
            ),
            forall|cmd: Seq<char>| #[trigger] c.ledger.known(cmd) == Set::<Seq<char>>::empty(),
    {
        match config {
            Some(t) => match Json::parse(t) {
                Some(j) => PostEditChecks::from_value(j.get("post_edit_check")),
                None => PostEditChecks::from_value(None),
            },
            None => PostEditChecks::from_value(None),
        }
    }

    /// Whether there is no check.
    pub fn is_empty(&self) -> (b: bool)
        ensures
            b == (self@.len() == 0),
    {
        self.rules.len() == 0
    }

    /// Forgets what was reported, so that it is reported again. The ledger says
    /// "reported above", and compaction takes away what is above.
    pub fn forget_reported(&mut self)
        ensures
            final(self)@ == old(self)@,
            forall|cmd: Seq<char>|
                #[trigger] final(self).ledger.known(cmd) == Set::<Seq<char>>::empty(),
    {
        self.ledger.clear();
    }

    /// The commands to run for the edited paths; see [`commands_for`].
    pub fn commands(&self, edited_paths: &Vec<String>) -> (r: Vec<String>)
        ensures
            texts(r@) == commands_for(self@, texts(edited_paths@)),
    {
        let ghost rs = self@;
        let ghost ps = texts(edited_paths@);
        let mut out: Vec<String> = Vec::new();
        let mut i: usize = 0;
        assert(rs.take(0) =~= Seq::empty());
        assert(texts(out@) =~= Seq::empty());
        while i < self.rules.len()
            invariant
                i <= self.rules@.len(),
                rs == rules_view(self.rules@),
                ps == texts(edited_paths@),
                texts(out@) == commands_for(rs.take(i as int), ps),
            decreases self.rules@.len() - i,
        {
            assert(rs.take(i + 1).drop_last() =~= rs.take(i as int));
            assert(rs[i as int] == (self.rules@[i as int].0@, self.rules@[i as int].1@));
            let cmd = self.rules[i].1.clone();
            let ghost before = texts(out@);
            if !known_text(&out, cmd.as_str()) && some_path_matches(
                self.rules[i].0.as_str(),
                edited_paths,
            ) {
                let ghost c = cmd@;
                out.push(cmd);
                assert(texts(out@) =~= before.push(c));
            }
            i += 1;
        }
        assert(rs.take(i as int) =~= rs);
        out
    }

    /// The report of one check, and what the ledger learns from it.
    pub fn report(&mut self, cmd: &str, outcome: &CheckOutcome, dedup: bool) -> (r: String)
        ensures
            final(self)@ == old(self)@,
            ({
                let (known, fresh, repeated) = reduced_lines(
                    old(self).ledger.known(cmd@),
                    lines_of(outcome->Failed_0@),
                );
                &&& r@ == check_report(cmd@, *outcome, dedup, trim_end(fresh), repeated)
                &&& final(self).ledger.known(cmd@) == (if ledger_asked(*outcome, dedup) {
                    known
                } else {
                    old(self).ledger.known(cmd@)
                })
            }),
            forall|other: Seq<char>|
                other != cmd@ ==> #[trigger] final(self).ledger.known(other) == old(
                    self,
                ).ledger.known(other),
    {
        match outcome {
            CheckOutcome::Passed => String::new(),
            CheckOutcome::Incomplete(output) => cat4(
                "\n\n[system] post-edit check did not complete — this is verifier/infrastructure evidence, not a code diagnostic. Do not repeat the same command blindly; continue with a cheaper targeted check or the final oracle:\n$ ",
                cmd,
                "\n",
                output.as_str(),
            ),
            CheckOutcome::Failed(output) => {
                if !dedup {
                    return cat4(
                        "\n\n[system] post-edit check failed — fix before proceeding:\n$ ",
                        cmd,
                        "\n",
                        output.as_str(),
                    );
                }
                let reduced = self.ledger.reduce(cmd, output.as_str());
                let n = size_text(reduced.repeated);
                if reduced.fresh.as_str().is_empty() {
                    cat4(
                        "\n\n[system] post-edit check still failing — ",
                        n.as_str(),
                        " diagnostic(s) already reported above, unchanged:\n$ ",
                        cmd,
                    )
                } else if reduced.repeated == 0 {
                    cat4(
                        "\n\n[system] post-edit check failed — fix before proceeding:\n$ ",
                        cmd,
                        "\n",
                        reduced.fresh.as_str(),
                    )
                } else {
                    cat7(
                        "\n\n[system] post-edit check failed — fix before proceeding:\n$ ",
                        cmd,
                        "\n",
                        reduced.fresh.as_str(),
                        "\n(+",
                        n.as_str(),
                        " diagnostic(s) already reported above, unchanged)",
                    )
                }
            },
        }
    }
}

/// The reports of some checks, one below the other, each as the ledger stood
/// before any of them; the commands are different ones.
pub open spec fn all_reports(
    ledger: DiagnosticsLedger,
    cmds: Seq<Seq<char>>,
    outcomes: Seq<CheckOutcome>,
    dedup: bool,
) -> Seq<char>
    decreases cmds.len(),
{
    if cmds.len() == 0 {
        Seq::empty()
    } else {
        let (known, fresh, repeated) = reduced_lines(
            ledger.known(cmds.last()),
            lines_of(outcomes.last()->Failed_0@),
        );
        all_reports(ledger, cmds.drop_last(), outcomes.drop_last(), dedup) + check_report(
            cmds.last(),
            outcomes.last(),
            dedup,
            trim_end(fresh),
            repeated,
        )
    }
}

impl PostEditChecks {
    /// The report of the checks that ran, to be put at the end of the last tool
    /// result; `None` when all of them passed. The commands are those that
    /// [`PostEditChecks::commands`] names, each with its outcome.
    pub fn run(&mut self, commands: &Vec<String>, outcomes: &Vec<CheckOutcome>, dedup: bool) -> (r:
        Option<String>)
        requires
            commands@.len() == outcomes@.len(),
            texts(commands@).no_duplicates(),
        ensures
            ({
                let report = all_reports(old(self).ledger, texts(commands@), outcomes@, dedup);
                match r {
                    Some(t) => t@ == report && report.len() > 0,
                    None => report.len() == 0,
                }
            }),
            final(self)@ == old(self)@,
            forall|cmd: Seq<char>|
                !texts(commands@).contains(cmd) ==> #[trigger] final(self).ledger.known(cmd) == old(
                    self,
                ).ledger.known(cmd),
            forall|i: int|
                0 <= i < commands@.len() ==> #[trigger] final(self).ledger.known(
                    texts(commands@)[i],
                ) == (if ledger_asked(outcomes@[i], dedup) {
                    reduced_lines(
                        old(self).ledger.known(texts(commands@)[i]),
                        lines_of(outcomes@[i]->Failed_0@),
                    ).0
                } else {
                    old(self).ledger.known(texts(commands@)[i])
                }),
    {
        let ghost cs = texts(commands@);
        let mut failures = String::new();
        let mut i: usize = 0;
        assert(cs.take(0) =~= Seq::empty());
        while i < commands.len()
            invariant
                i <= commands@.len() == outcomes@.len(),
                cs == texts(commands@),
                cs.no_duplicates(),
                self@ == old(self)@,
                failures@ == all_reports(
                    old(self).ledger,
                    cs.take(i as int),
                    outcomes@.take(i as int),
                    dedup,
                ),
                forall|cmd: Seq<char>|
                    !cs.take(i as int).contains(cmd) ==> #[trigger] self.ledger.known(cmd) == old(
                        self,
                    ).ledger.known(cmd),
                forall|k: int|
                    0 <= k < i ==> #[trigger] self.ledger.known(cs[k]) == (if ledger_asked(
                        outcomes@[k],
                        dedup,
                    ) {
                        reduced_lines(
                            old(self).ledger.known(cs[k]),
                            lines_of(outcomes@[k]->Failed_0@),
                        ).0
                    } else {
                        old(self).ledger.known(cs[k])
                    }),
            decreases commands@.len() - i,
        {
            let ghost done = cs.take(i as int);
            assert(cs.take(i + 1).drop_last() =~= done);
            assert(outcomes@.take(i + 1).drop_last() =~= outcomes@.take(i as int));
            assert(cs[i as int] == commands@[i as int]@);
            assert(!done.contains(cs[i as int])) by {
                if done.contains(cs[i as int]) {
                    let k = choose|k: int| 0 <= k < done.len() && done[k] == cs[i as int];
                    assert(cs[k] == cs[i as int]);
                }
            }
            assert(self.ledger.known(cs[i as int]) == old(self).ledger.known(cs[i as int]));
            let block = self.report(commands[i].as_str(), &outcomes[i], dedup);
            put(&mut failures, block.as_str());
            proof {
                let more = cs.take(i + 1);
                assert(more =~= done.push(cs[i as int]));
                assert forall|cmd: Seq<char>| !more.contains(cmd) implies #[trigger] self.ledger.known(
                    cmd,
                ) == old(self).ledger.known(cmd) by {
                    assert(more[i as int] == cs[i as int]);
                    if done.contains(cmd) {
                        let k = choose|k: int| 0 <= k < done.len() && done[k] == cmd;
                        assert(more[k] == cmd);
                    }
                }
                assert forall|k: int| 0 <= k < i implies cs[k] != cs[i as int] by {}
            }
            i += 1;
        }
        assert(cs.take(i as int) =~= cs);
        assert(outcomes@.take(i as int) =~= outcomes@);
        if failures.as_str().is_empty() {
            None
        } else {
            Some(failures)
        }
    }
}

fn some_path_matches(glob: &str, paths: &Vec<String>) -> (b: bool)
    ensures
        b == matches_some(glob@, texts(paths@)),
{
    let ghost ps = texts(paths@);
    let mut i: usize = 0;
    while i < paths.len()
        invariant
            i <= paths@.len(),
            ps == texts(paths@),
            forall|k: int| 0 <= k < i ==> !globbed(glob@, #[trigger] ps[k]),
        decreases paths@.len() - i,
    {
        assert(ps[i as int] == paths@[i as int]@);
        if glob_matches(glob, paths[i].as_str()) {
            return true;
        }
        i += 1;
    }
    false
}

/// Each command runs once, however many globs and paths ask for it.
pub proof fn law_commands_run_once(rules: Seq<(Seq<char>, Seq<char>)>, paths: Seq<Seq<char>>)
    ensures
        commands_for(rules, paths).no_duplicates(),
    decreases rules.len(),
{
    if rules.len() > 0 {
        law_commands_run_once(rules.drop_last(), paths);
        let before = commands_for(rules.drop_last(), paths);
        if !before.contains(rules.last().1) && matches_some(rules.last().0, paths) {
            let after = before.push(rules.last().1);
            assert forall|i: int, j: int|
                0 <= i < after.len() && 0 <= j < after.len() && i != j implies after[i]
                != after[j] by {
                if j == before.len() {
                    assert(before.contains(before[i]));
                } else if i == before.len() {
                    assert(before.contains(before[j]));
                }
            }
        }
    }
}

/// A failed check is never passed over in silence, whatever was reported before.
pub proof fn law_failure_is_always_reported(
    cmd: Seq<char>,
    output: String,
    dedup: bool,
    fresh: Seq<char>,
    repeated: nat,
)
    ensures
        check_report(cmd, CheckOutcome::Failed(output), dedup, fresh, repeated).len() > 0,
{
    reveal_strlit("\n\n[system] post-edit check failed — fix before proceeding:\n$ ");
    reveal_strlit("\n\n[system] post-edit check still failing — ");
}

// ------------------------------------------------------------ hooks

/// A command that is asked before a tool runs, if its glob matches the tool.
#[derive(Debug)]
pub struct PreHook {
    pub matcher: String,
    pub command: String,
}

/// A command that sees the result of a tool before anything else does, if its
/// glob matches the tool.
#[derive(Debug)]
pub struct TuskHook {
    pub matcher: String,
    pub command: String,
}

/// What the filters made of a result: it stays, it is replaced, or it is
/// withheld and the reason takes its place, as an error.
#[derive(Debug, PartialEq)]
pub enum TuskOutcome {
    Unchanged,
    Replaced(String),
    Withheld(String),
}

/// A policy that needs no command.
#[derive(Clone, Copy, Debug, PartialEq, Eq, Structural)]
pub enum HookPreset {
    HighRisk,
}

impl HookPreset {
    /// The name in the configuration.
    pub fn name(self) -> (r: &'static str)
        ensures
            r@ == "high_risk"@,
    {
        match self {
            HookPreset::HighRisk => "high_risk",
        }
    }
}

/// The hooks of a run.
#[derive(Debug)]
pub struct Hooks {
    /// The policies that are switched on.
    pub presets: Vec<HookPreset>,
    /// Names of policies that are not known; they do nothing.
    pub unknown_presets: Vec<String>,
    pub pre: Vec<PreHook>,
    pub post: PostEditChecks,
    pub tusk: Vec<TuskHook>,
    pub stop: Vec<String>,
}

/// The entries with a command, each with its glob; an entry without a glob is
/// one for every tool.
pub open spec fn hook_entries(items: Seq<JsonV>) -> Seq<(Seq<char>, Seq<char>)>
    decreases items.len(),
{
    if items.len() == 0 {
        Seq::empty()
    } else {
        let before = hook_entries(items.drop_last());
        match text_field(items.last(), "command"@) {
            Some(command) => before.push(
                (
                    match text_field(items.last(), "match"@) {
                        Some(glob) => glob,
                        None => "*"@,
                    },
                    command,
                ),
            ),
            None => before,
        }
    }
}

/// The hooks in a list; anything but a list holds none.
pub open spec fn listed_hooks(v: Option<JsonV>) -> Seq<(Seq<char>, Seq<char>)> {
    match v {
        Some(j) => match items_in(j) {
            Some(items) => hook_entries(items),
            None => Seq::empty(),
        },
        None => Seq::empty(),
    }
}

/// Computes [`listed_hooks`].
pub fn matched_hooks(v: &Json) -> (r: Vec<(String, String)>)
    ensures
        rules_view(r@) == listed_hooks(Some(v@)),
{
    let mut out: Vec<(String, String)> = Vec::new();
    assert(rules_view(out@) =~= Seq::empty());
    if let Some(items) = v.as_array() {
        let ghost is = json_views(items@);
        let mut i: usize = 0;
        assert(is.take(0) =~= Seq::empty());
        while i < items.len()
            invariant
                i <= items@.len(),
                is == json_views(items@),
                rules_view(out@) == hook_entries(is.take(i as int)),
            decreases items@.len() - i,
        {
            assert(is.take(i + 1).drop_last() =~= is.take(i as int));
            assert(is[i as int] == items@[i as int]@);
            let ghost before = rules_view(out@);
            if let Some(command) = items[i].str_at("command") {
                let glob = match items[i].str_at("match") {
                    Some(g) => g.to_owned(),
                    None => "*".to_owned(),
                };
                let ghost g = glob@;
                out.push((glob, command.to_owned()));
                assert(rules_view(out@) =~= before.push((g, command@)));
            }
            i += 1;
        }
        assert(is.take(i as int) =~= is);
    }
    out
}

/// The commands of a list: bare, or under `command`.
pub open spec fn command_entries(items: Seq<JsonV>) -> Seq<Seq<char>>
    decreases items.len(),
{
    if items.len() == 0 {
        Seq::empty()
    } else {
        let before = command_entries(items.drop_last());
        match text_in(items.last()) {
            Some(t) => before.push(t),
            None => match text_field(items.last(), "command"@) {
                Some(t) => before.push(t),
                None => before,
            },
        }
    }
}

/// The commands in a list; anything but a list holds none.
pub open spec fn listed_commands(v: Option<JsonV>) -> Seq<Seq<char>> {
    match v {
        Some(j) => match items_in(j) {
            Some(items) => command_entries(items),
            None => Seq::empty(),
        },
        None => Seq::empty(),
    }
}

/// Computes [`listed_commands`].
pub fn parse_command_list(v: &Json) -> (r: Vec<String>)
    ensures
        texts(r@) == listed_commands(Some(v@)),
{
    let mut out: Vec<String> = Vec::new();
    assert(texts(out@) =~= Seq::empty());
    if let Some(items) = v.as_array() {
        let ghost is = json_views(items@);
        let mut i: usize = 0;
        assert(is.take(0) =~= Seq::empty());
        while i < items.len()
            invariant
                i <= items@.len(),
                is == json_views(items@),
                texts(out@) == command_entries(is.take(i as int)),
            decreases items@.len() - i,
        {
            assert(is.take(i + 1).drop_last() =~= is.take(i as int));
            assert(is[i as int] == items@[i as int]@);
            let ghost before = texts(out@);
            let command = match items[i].as_str() {
                Some(t) => Some(t),
                None => items[i].str_at("command"),
            };
            if let Some(t) = command {
                out.push(t.to_owned());
                assert(texts(out@) =~= before.push(t@));
            }
            i += 1;
        }
        assert(is.take(i as int) =~= is);
    }
    out
}

/// The names of policies in a list, known and unknown, each once.
pub open spec fn preset_names(items: Seq<JsonV>) -> (Seq<HookPreset>, Seq<Seq<char>>)
    decreases items.len(),
{
    if items.len() == 0 {
        (Seq::empty(), Seq::empty())
    } else {
        let (known, unknown) = preset_names(items.drop_last());
        match text_in(items.last()) {
            Some(name) => if name == "high_risk"@ {
                if known.contains(HookPreset::HighRisk) {
                    (known, unknown)
                } else {
                    (known.push(HookPreset::HighRisk), unknown)
                }
            } else if unknown.contains(name) {
                (known, unknown)
            } else {
                (known, unknown.push(name))
            },
            None => (known, unknown),
        }
    }
}

/// The policies that a section of the configuration names.
pub open spec fn named_presets(section: Option<JsonV>) -> (Seq<HookPreset>, Seq<Seq<char>>) {
    match section {
        Some(j) => match field(j, "presets"@) {
            Some(list) => match items_in(list) {
                Some(items) => preset_names(items),
                None => (Seq::empty(), Seq::empty()),
            },
            None => (Seq::empty(), Seq::empty()),
        },
        None => (Seq::empty(), Seq::empty()),
    }
}

fn knows_high_risk(presets: &Vec<HookPreset>) -> (b: bool)
    ensures
        b == presets@.contains(HookPreset::HighRisk),
{
    if presets.len() > 0 {
        assert(presets@[0] == HookPreset::HighRisk);
        true
    } else {
        false
    }
}

/// The meaning of a section that may be missing.
pub open spec fn seen(section: Option<&Json>) -> Option<JsonV> {
    match section {
        Some(j) => Some(j@),
        None => None,
    }
}

/// Computes [`named_presets`].
pub fn configured_presets(section: Option<&Json>) -> (r: (Vec<HookPreset>, Vec<String>))
    ensures
        (r.0@, texts(r.1@)) == named_presets(seen(section)),
{
    let mut known: Vec<HookPreset> = Vec::new();
    let mut unknown: Vec<String> = Vec::new();
    assert(texts(unknown@) =~= Seq::empty());
    assert(known@ =~= Seq::empty());
    if let Some(j) = section {
        if let Some(items) = j.array_at("presets") {
            let ghost is = json_views(items@);
            let mut i: usize = 0;
            assert(is.take(0) =~= Seq::empty());
            while i < items.len()
                invariant
                    i <= items@.len(),
                    is == json_views(items@),
                    (known@, texts(unknown@)) == preset_names(is.take(i as int)),
                decreases items@.len() - i,
            {
                assert(is.take(i + 1).drop_last() =~= is.take(i as int));
                assert(is[i as int] == items@[i as int]@);
                let ghost before = texts(unknown@);
                if let Some(name) = items[i].as_str() {
                    if same(name, "high_risk") {
                        if !knows_high_risk(&known) {
                            known.push(HookPreset::HighRisk);
                        }
                    } else if !known_text(&unknown, name) {
                        unknown.push(name.to_owned());
                        assert(texts(unknown@) =~= before.push(name@));
                    }
                }
                i += 1;
            }
            assert(is.take(i as int) =~= is);
        }
    }
    (known, unknown)
}

fn as_pre(v: Vec<(String, String)>) -> (r: Vec<PreHook>)
    ensures
        pre_view(r@) == rules_view(v@),
{
    let mut out: Vec<PreHook> = Vec::new();
    let mut i: usize = 0;
    while i < v.len()
        invariant
            i <= v@.len(),
            out@.len() == i,
            forall|k: int|
                0 <= k < i ==> (#[trigger] out@[k]).matcher@ == v@[k].0@ && out@[k].command@
                    == v@[k].1@,
        decreases v@.len() - i,
    {
        out.push(PreHook { matcher: v[i].0.clone(), command: v[i].1.clone() });
        i += 1;
    }
    assert(pre_view(out@) =~= rules_view(v@));
    out
}

fn as_tusk(v: Vec<(String, String)>) -> (r: Vec<TuskHook>)
    ensures
        tusk_view(r@) == rules_view(v@),
{
    let mut out: Vec<TuskHook> = Vec::new();
    let mut i: usize = 0;
    while i < v.len()
        invariant
            i <= v@.len(),
            out@.len() == i,
            forall|k: int|
                0 <= k < i ==> (#[trigger] out@[k]).matcher@ == v@[k].0@ && out@[k].command@
                    == v@[k].1@,
        decreases v@.len() - i,
    {
        out.push(TuskHook { matcher: v[i].0.clone(), command: v[i].1.clone() });
        i += 1;
    }
    assert(tusk_view(out@) =~= rules_view(v@));
    out
}

/// What some guard hooks stand for.
pub open spec fn pre_view(v: Seq<PreHook>) -> Seq<(Seq<char>, Seq<char>)> {
    v.map_values(|h: PreHook| (h.matcher@, h.command@))
}

/// What some filters stand for.
pub open spec fn tusk_view(v: Seq<TuskHook>) -> Seq<(Seq<char>, Seq<char>)> {
    v.map_values(|h: TuskHook| (h.matcher@, h.command@))
}

/// A field of a section that may be missing.
pub open spec fn part(section: Option<JsonV>, key: Seq<char>) -> Option<JsonV> {
    match section {
        Some(j) => field(j, key),
        None => None,
    }
}

/// What a whole setting gives, or nothing where it is switched off.
pub open spec fn unless<A>(switched_off: bool, what: Seq<A>) -> Seq<A> {
    if switched_off {
        Seq::empty()
    } else {
        what
    }
}

fn get_part<'a>(section: Option<&'a Json>, key: &str) -> (r: Option<&'a Json>)
    ensures
        seen(r) == part(seen(section), key@),
{
    match section {
        Some(j) => j.get(key),
        None => None,
    }
}

impl Hooks {
    /// No hooks at all.
    pub fn none() -> (h: Hooks)
        ensures
            h.presets@.len() == 0,
            h.unknown_presets@.len() == 0,
            h.pre@.len() == 0,
            h.post@.len() == 0,
            h.tusk@.len() == 0,
            h.stop@.len() == 0,
            forall|cmd: Seq<char>| #[trigger]
                h.post.ledger.known(cmd) == Set::<Seq<char>>::empty(),
    {
        Hooks {
            presets: Vec::new(),
            unknown_presets: Vec::new(),
            pre: Vec::new(),
            post: PostEditChecks::new(Vec::new()),
            tusk: Vec::new(),
            stop: Vec::new(),
        }
    }

    /// The hooks of a `hooks` section. Checks after edits that it does not name
    /// are those of the configuration file; `disable` is the setting that
    /// switches features off.
    pub fn from_section(section: Option<&Json>, legacy: PostEditChecks, disable: Option<&str>) -> (h:
        Hooks)
        ensures
            (h.presets@, texts(h.unknown_presets@)) == named_presets(seen(section)),
            pre_view(h.pre@) == unless(
                off(disable, "hook"@, "pre"@),
                listed_hooks(part(seen(section), "pre_tool_use"@)),
            ),
            tusk_view(h.tusk@) == unless(
                off(disable, "hook"@, "tusk"@),
                listed_hooks(part(seen(section), "tusk"@)),
            ),
            texts(h.stop@) == unless(
                off(disable, "hook"@, "stop"@),
                listed_commands(part(seen(section), "stop"@)),
            ),
            h.post@ == unless(
                off(disable, "hook"@, "post"@),
                match part(seen(section), "post_tool_use"@) {
                    Some(v) => configured_rules(Some(v)),
                    None => legacy@,
                },
            ),
            forall|cmd: Seq<char>| #[trigger]
                h.post.ledger.known(cmd) == (if off(disable, "hook"@, "post"@) || part(
                    seen(section),
                    "post_tool_use"@,
                ) is Some {
                    Set::<Seq<char>>::empty()
                } else {
                    legacy.ledger.known(cmd)
                }),
    {
        let (presets, unknown_presets) = configured_presets(section);
        let mut pre: Vec<PreHook> = Vec::new();
        assert(pre_view(pre@) =~= Seq::empty());
        if !disabled_hook(disable, "pre") {
            if let Some(v) = get_part(section, "pre_tool_use") {
                pre = as_pre(matched_hooks(v));
            }
        }
        let mut tusk: Vec<TuskHook> = Vec::new();
        assert(tusk_view(tusk@) =~= Seq::empty());
        if !disabled_hook(disable, "tusk") {
            if let Some(v) = get_part(section, "tusk") {
                tusk = as_tusk(matched_hooks(v));
            }
        }
        let mut stop: Vec<String> = Vec::new();
        assert(texts(stop@) =~= Seq::empty());
        if !disabled_hook(disable, "stop") {
            if let Some(v) = get_part(section, "stop") {
                stop = parse_command_list(v);
            }
        }
        let post = if disabled_hook(disable, "post") {
            PostEditChecks::from_value(None)
        } else {
            match get_part(section, "post_tool_use") {
                Some(v) => PostEditChecks::from_value(Some(v)),
                None => legacy,
            }
        };
        Hooks { presets, unknown_presets, pre, post, tusk, stop }
    }

    /// The hooks of a configuration, and whether a filter is among them; see
    /// [`Hooks::from_section`] and [`tusk_armed`].
    pub fn load(section: Option<&Json>, config: Option<&str>, disable: Option<&str>) -> (r: (
        Hooks,
        bool,
    ))
        ensures
            (r.0.presets@, texts(r.0.unknown_presets@)) == named_presets(seen(section)),
            pre_view(r.0.pre@) == unless(
                off(disable, "hook"@, "pre"@),
                listed_hooks(part(seen(section), "pre_tool_use"@)),
            ),
            tusk_view(r.0.tusk@) == unless(
                off(disable, "hook"@, "tusk"@),
                listed_hooks(part(seen(section), "tusk"@)),
            ),
            texts(r.0.stop@) == unless(
                off(disable, "hook"@, "stop"@),
                listed_commands(part(seen(section), "stop"@)),
            ),
            r.0.post@ == unless(
                off(disable, "hook"@, "post"@),
                match part(seen(section), "post_tool_use"@) {
                    Some(v) => configured_rules(Some(v)),
                    None => configured_rules(
                        match config {
                            Some(t) => match crate::json::parsed_json(t@) {
                                Some(j) => field(j, "post_edit_check"@),
                                None => None,
                            },
                            None => None,
                        },
                    ),
                },
            ),
            forall|cmd: Seq<char>| #[trigger]
                r.0.post.ledger.known(cmd) == Set::<Seq<char>>::empty(),
            r.1 == (r.0.tusk@.len() > 0),
    {
        let hooks = Hooks::from_section(section, PostEditChecks::load(config), disable);
        let armed = tusk_armed(&hooks.tusk);
        (hooks, armed)
    }
}

/// Whether a run has a filter over its results. Such a run keeps no unfiltered
/// copy of what a tool printed.
pub fn tusk_armed(hooks: &Vec<TuskHook>) -> (b: bool)
    ensures
        b == (hooks@.len() > 0),
{
    hooks.len() > 0
}

// ------------------------------------------------------------ running hooks

/// What a finished hook left: its exit code and both streams as they are.
#[derive(Clone, Debug)]
pub struct HookOutput {
    pub code: i32,
    pub stdout: String,
    pub stderr: String,
}

/// What a [`HookOutput`] stands for.
pub struct HookOutputV {
    pub code: int,
    pub stdout: Seq<char>,
    pub stderr: Seq<char>,
}

impl View for HookOutput {
    type V = HookOutputV;

    open spec fn view(&self) -> HookOutputV {
        HookOutputV { code: self.code as int, stdout: self.stdout@, stderr: self.stderr@ }
    }
}

/// Both streams trimmed, one below the other; an empty one leaves no line.
pub open spec fn merged_streams(o: HookOutputV) -> Seq<char> {
    let out = trimmed(o.stdout);
    let err = trimmed(o.stderr);
    if out.len() == 0 {
        err
    } else if err.len() == 0 {
        out
    } else {
        out + "\n"@ + err
    }
}

impl HookOutput {
    /// Computes [`merged_streams`].
    pub fn merged(&self) -> (r: String)
        ensures
            r@ == merged_streams(self@),
    {
        let out = trim(self.stdout.as_str());
        let err = trim(self.stderr.as_str());
        if out.as_str().is_empty() {
            err
        } else if err.as_str().is_empty() {
            out
        } else {
            cat3(out.as_str(), "\n", err.as_str())
        }
    }
}

/// The commands of the hooks whose glob matches `tool`, in order.
pub open spec fn hooks_for(hooks: Seq<(Seq<char>, Seq<char>)>, tool: Seq<char>) -> Seq<Seq<char>>
    decreases hooks.len(),
{
    if hooks.len() == 0 {
        Seq::empty()
    } else {
        let before = hooks_for(hooks.drop_last(), tool);
        if globbed(hooks.last().0, tool) {
            before.push(hooks.last().1)
        } else {
            before
        }
    }
}

/// Why a guard hook asks or denies: what it printed, or that it did.
pub open spec fn gate_reason(verb: Seq<char>, cmd: Seq<char>, o: HookOutputV) -> Seq<char> {
    if merged_streams(o).len() == 0 {
        verb + " by pre_tool_use hook: "@ + cmd
    } else {
        merged_streams(o)
    }
}

/// What the exit of a guard hook decides; `None` where it decides nothing: the
/// code means nothing, or the hook did not run to its end.
pub open spec fn gate_verdict(cmd: Seq<char>, out: Option<HookOutputV>) -> Option<PreVerdictV> {
    match out {
        None => None,
        Some(o) => if o.code == 0 {
            Some(PreVerdictV::Allow)
        } else if o.code == 2 {
            Some(PreVerdictV::Deny(gate_reason("blocked"@, cmd, o)))
        } else if o.code == 3 {
            Some(PreVerdictV::Ask(gate_reason("held for confirmation"@, cmd, o)))
        } else if o.code == 4 {
            match crate::json::parsed_json(trimmed(o.stdout)) {
                Some(JsonV::Object(fields)) => Some(
                    PreVerdictV::AllowRewritten(JsonV::Object(fields)),
                ),
                _ => Some(
                    PreVerdictV::Deny(
                        "pre_tool_use hook `"@ + cmd
                            + "` exited 4 (rewrite) but stdout is not a JSON object"@,
                    ),
                ),
            }
        } else if o.code == 5 {
            Some(PreVerdictV::Short(o.stdout))
        } else {
            None
        },
    }
}

/// What the guard says when its hooks ended as `outs` tells, one after the other:
/// the first that decides wins.
pub open spec fn gate_of(cmds: Seq<Seq<char>>, outs: Seq<Option<HookOutputV>>) -> PreVerdictV
    decreases outs.len(),
{
    if outs.len() == 0 || cmds.len() == 0 {
        PreVerdictV::Pass
    } else {
        match gate_verdict(cmds[0], outs[0]) {
            Some(v) => v,
            None => gate_of(cmds.drop_first(), outs.drop_first()),
        }
    }
}

/// What some outputs stand for.
pub open spec fn output_view(out: Option<HookOutput>) -> Option<HookOutputV> {
    match out {
        Some(o) => Some(o@),
        None => None,
    }
}

/// Computes [`gate_verdict`].
pub fn judge_gate(cmd: &str, out: Option<HookOutput>) -> (r: Option<PreVerdict>)
    ensures
        match r {
            Some(v) => gate_verdict(cmd@, output_view(out)) == Some(v@),
            None => gate_verdict(cmd@, output_view(out)) is None,
        },
{
    match out {
        None => None,
        Some(o) => {
            let merged = o.merged();
            if o.code == 0 {
                Some(PreVerdict::Allow)
            } else if o.code == 2 {
                let reason = if merged.as_str().is_empty() {
                    cat3("blocked", " by pre_tool_use hook: ", cmd)
                } else {
                    merged
                };
                Some(PreVerdict::Deny(reason))
            } else if o.code == 3 {
                let reason = if merged.as_str().is_empty() {
                    cat3("held for confirmation", " by pre_tool_use hook: ", cmd)
                } else {
                    merged
                };
                Some(PreVerdict::Ask(reason))
            } else if o.code == 4 {
                let body = trim(o.stdout.as_str());
                let parsed = Json::parse(body.as_str());
                if let Some(j) = parsed {
                    let is_object = j.as_object().is_some();
                    if is_object {
                        return Some(PreVerdict::AllowRewritten(j));
                    }
                }
                Some(
                    PreVerdict::Deny(
                        cat3(
                            "pre_tool_use hook `",
                            cmd,
                            "` exited 4 (rewrite) but stdout is not a JSON object",
                        ),
                    ),
                )
            } else if o.code == 5 {
                Some(PreVerdict::Short(o.stdout))
            } else {
                None
            }
        },
    }
}

/// The guard before a call: the commands still to run, until one decides.
#[derive(Debug)]
pub struct PreGate {
    pub commands: Vec<String>,
    /// What each command reads from its standard input.
    pub payload: String,
    pub at: usize,
    pub verdict: Option<PreVerdict>,
}

/// What a [`PreGate`] stands for.
pub struct PreGateV {
    pub commands: Seq<Seq<char>>,
    pub at: int,
    pub verdict: Option<PreVerdictV>,
}

impl View for PreGate {
    type V = PreGateV;

    open spec fn view(&self) -> PreGateV {
        PreGateV {
            commands: texts(self.commands@),
            at: self.at as int,
            verdict: match self.verdict {
                Some(v) => Some(v@),
                None => None,
            },
        }
    }
}

/// The guard has a command to run: none decided yet, and not all have run.
pub open spec fn gate_runs(g: PreGateV) -> bool {
    g.verdict is None && 0 <= g.at < g.commands.len()
}

/// The guard after its next command ended.
pub open spec fn gate_after(g: PreGateV, out: Option<HookOutputV>) -> PreGateV {
    PreGateV { at: g.at + 1, verdict: gate_verdict(g.commands[g.at], out), ..g }
}

/// What the guard says as it stands.
pub open spec fn gate_says(g: PreGateV) -> PreVerdictV {
    match g.verdict {
        Some(v) => v,
        None => PreVerdictV::Pass,
    }
}

/// The guard after its commands ended as `outs` tells, as far as it still asks.
pub open spec fn gate_run(g: PreGateV, outs: Seq<Option<HookOutputV>>) -> PreGateV
    decreases outs.len(),
{
    if outs.len() == 0 || !gate_runs(g) {
        g
    } else {
        gate_run(gate_after(g, outs[0]), outs.drop_first())
    }
}

fn commands_matching(v: &Vec<(String, String)>, tool: &str) -> (r: Vec<String>)
    ensures
        texts(r@) == hooks_for(rules_view(v@), tool@),
{
    let ghost hs = rules_view(v@);
    let mut out: Vec<String> = Vec::new();
    let mut i: usize = 0;
    assert(hs.take(0) =~= Seq::empty());
    assert(texts(out@) =~= Seq::empty());
    while i < v.len()
        invariant
            i <= v@.len(),
            hs == rules_view(v@),
            texts(out@) == hooks_for(hs.take(i as int), tool@),
        decreases v@.len() - i,
    {
        assert(hs.take(i + 1).drop_last() =~= hs.take(i as int));
        assert(hs[i as int] == (v@[i as int].0@, v@[i as int].1@));
        let ghost before = texts(out@);
        if glob_matches(v[i].0.as_str(), tool) {
            let c = v[i].1.clone();
            let ghost cv = c@;
            out.push(c);
            assert(texts(out@) =~= before.push(cv));
        }
        i += 1;
    }
    assert(hs.take(i as int) =~= hs);
    out
}

/// What a guard hook reads: the tool and its input, as a JSON text.
pub open spec fn gate_payload(tool: Seq<char>, input: JsonV) -> Seq<char> {
    rendered_json(
        settled_json(JsonV::Object(seq![("tool"@, JsonV::Str(tool)), ("input"@, input)])),
    )
}

impl Hooks {
    /// The guard before a call of `tool`: a policy may decide it at once; else
    /// the hooks that match the tool are to be run.
    pub fn pre_tool_use(&self, tool: &str, input: &Json) -> (g: PreGate)
        ensures
            g@ == (PreGateV {
                commands: hooks_for(pre_view(self.pre@), tool@),
                at: 0,
                verdict: if self.presets@.contains(HookPreset::HighRisk) {
                    match risk_of(tool@, input@) {
                        Some(reason) => Some(PreVerdictV::Ask(reason)),
                        None => None,
                    }
                } else {
                    None
                },
            }),
            g.payload@ == gate_payload(tool@, input@),
    {
        let mut pairs: Vec<(String, String)> = Vec::new();
        let mut i: usize = 0;
        while i < self.pre.len()
            invariant
                i <= self.pre@.len(),
                pairs@.len() == i,
                forall|k: int|
                    0 <= k < i ==> (#[trigger] pairs@[k]).0@ == self.pre@[k].matcher@
                        && pairs@[k].1@ == self.pre@[k].command@,
            decreases self.pre@.len() - i,
        {
            pairs.push((self.pre[i].matcher.clone(), self.pre[i].command.clone()));
            i += 1;
        }
        assert(rules_view(pairs@) =~= pre_view(self.pre@));
        let commands = commands_matching(&pairs, tool);
        let mut verdict: Option<PreVerdict> = None;
        if knows_high_risk(&self.presets) {
            if let Some(reason) = high_risk_reason(tool, input) {
                verdict = Some(PreVerdict::Ask(reason));
            }
        }
        let mut fields = no_fields();
        add_field(&mut fields, "tool", js(tool));
        add_field(&mut fields, "input", input.clone());
        let message = obj(fields);
        assert(message@->Object_0 =~= seq![("tool"@, JsonV::Str(tool@)), ("input"@, input@)]);
        let payload = message.render();
        PreGate { commands, payload, at: 0, verdict }
    }
}

impl PreGate {
    /// The next command to run, if the guard still asks.
    pub fn next_command(&self) -> (r: Option<&str>)
        ensures
            match r {
                Some(c) => gate_runs(self@) && c@ == self@.commands[self@.at],
                None => !gate_runs(self@),
            },
    {
        if self.verdict.is_some() || self.at >= self.commands.len() {
            return None;
        }
        assert(self@.commands[self@.at] == self.commands@[self.at as int]@);
        Some(self.commands[self.at].as_str())
    }

    /// Takes in how the next command ended; `None` where it could not be run or
    /// took too long.
    pub fn feed(&mut self, out: Option<HookOutput>)
        requires
            gate_runs(old(self)@),
        ensures
            final(self)@ == gate_after(old(self)@, output_view(out)),
            final(self).payload@ == old(self).payload@,
    {
        assert(self@.commands[self@.at] == self.commands@[self.at as int]@);
        let size: usize = self.commands.len();
        let v = judge_gate(self.commands[self.at].as_str(), out);
        self.verdict = v;
        self.at = self.at + 1;
    }

    /// What the guard says; nothing as long as none of its hooks decided.
    pub fn finish(self) -> (r: PreVerdict)
        ensures
            r@ == gate_says(self@),
    {
        match self.verdict {
            Some(v) => v,
            None => PreVerdict::Pass,
        }
    }
}

/// The first hook that decides wins: run to its end, the guard says what
/// [`gate_of`] says of its commands.
pub proof fn law_first_decisive_hook_wins(g: PreGateV, outs: Seq<Option<HookOutputV>>)
    requires
        g.verdict is None,
        0 <= g.at <= g.commands.len(),
    ensures
        gate_says(gate_run(g, outs)) == gate_of(g.commands.skip(g.at), outs),
    decreases outs.len(),
{
    if outs.len() > 0 && g.at < g.commands.len() {
        let next = gate_after(g, outs[0]);
        assert(g.commands.skip(g.at)[0] == g.commands[g.at]);
        if next.verdict is None {
            law_first_decisive_hook_wins(next, outs.drop_first());
            assert(g.commands.skip(g.at).drop_first() =~= g.commands.skip(g.at + 1));
        } else {
            assert(gate_run(next, outs.drop_first()) == next);
        }
    } else if outs.len() > 0 {
        assert(g.commands.skip(g.at).len() == 0);
    }
}

/// Hooks that fail to run, or exit with a code that means nothing, leave the
/// call to the rules that follow.
pub proof fn law_undecided_hooks_pass(cmds: Seq<Seq<char>>, outs: Seq<Option<HookOutputV>>)
    requires
        forall|i: int|
            0 <= i < outs.len() && (#[trigger] outs[i]) is Some ==> !(0 <= outs[i]->0.code <= 5
                && outs[i]->0.code != 1),
    ensures
        gate_of(cmds, outs) == PreVerdictV::Pass,
    decreases outs.len(),
{
    if outs.len() > 0 && cmds.len() > 0 {
        assert(gate_verdict(cmds[0], outs[0]) is None);
        assert forall|i: int|
            0 <= i < outs.drop_first().len() && (#[trigger] outs.drop_first()[i])
                is Some implies !(0 <= outs.drop_first()[i]->0.code <= 5
            && outs.drop_first()[i]->0.code != 1) by {
            assert(outs[i + 1] == outs.drop_first()[i]);
        }
        law_undecided_hooks_pass(cmds.drop_first(), outs.drop_first());
    }
}

// ------------------------------------------------------------ result filters

/// What a filter's end makes of a result: `Ok` of what replaces it from then on,
/// if anything does, or `Err` of the reason for which it is withheld. Anything
/// but success withholds it, a filter that did not run included.
pub open spec fn filter_verdict(
    cmd: Seq<char>,
    out: Option<HookOutputV>,
    current: Option<Seq<char>>,
) -> Result<Option<Seq<char>>, Seq<char>> {
    match out {
        None => Err("tusk filter `"@ + cmd + "` did not run"@),
        Some(o) => if o.code == 0 {
            if trimmed(o.stdout).len() == 0 {
                Ok(current)
            } else {
                Ok(Some(o.stdout))
            }
        } else if o.code == 2 {
            if merged_streams(o).len() == 0 {
                Err("result withheld by tusk filter: "@ + cmd)
            } else {
                Err(merged_streams(o))
            }
        } else {
            Err(
                "tusk filter `"@ + cmd + "` exited "@ + signed_decimal(o.code)
                    + "; result withheld"@,
            )
        },
    }
}

/// The chain of filters over one result: the commands still to run, what the
/// result became, and why it is withheld, if it is.
#[derive(Debug)]
pub struct TuskChain {
    pub commands: Vec<String>,
    pub at: usize,
    pub current: Option<String>,
    pub withheld: Option<String>,
}

/// What a [`TuskChain`] stands for.
pub struct TuskChainV {
    pub commands: Seq<Seq<char>>,
    pub at: int,
    pub current: Option<Seq<char>>,
    pub withheld: Option<Seq<char>>,
}

/// What a text that may be missing stands for.
pub open spec fn text_view(t: Option<String>) -> Option<Seq<char>> {
    match t {
        Some(x) => Some(x@),
        None => None,
    }
}

impl View for TuskChain {
    type V = TuskChainV;

    open spec fn view(&self) -> TuskChainV {
        TuskChainV {
            commands: texts(self.commands@),
            at: self.at as int,
            current: text_view(self.current),
            withheld: text_view(self.withheld),
        }
    }
}

/// What a [`TuskOutcome`] stands for.
pub enum TuskOutcomeV {
    Unchanged,
    Replaced(Seq<char>),
    Withheld(Seq<char>),
}

impl View for TuskOutcome {
    type V = TuskOutcomeV;

    open spec fn view(&self) -> TuskOutcomeV {
        match self {
            TuskOutcome::Unchanged => TuskOutcomeV::Unchanged,
            TuskOutcome::Replaced(t) => TuskOutcomeV::Replaced(t@),
            TuskOutcome::Withheld(t) => TuskOutcomeV::Withheld(t@),
        }
    }
}

/// The chain has a filter to run: nothing is withheld, and not all have run.
pub open spec fn chain_runs(c: TuskChainV) -> bool {
    c.withheld is None && 0 <= c.at < c.commands.len()
}

/// What the next filter reads: what the one before it made of the result.
pub open spec fn chain_input(c: TuskChainV, result: Seq<char>) -> Seq<char> {
    match c.current {
        Some(t) => t,
        None => result,
    }
}

/// The chain after its next filter ended.
pub open spec fn chain_after(c: TuskChainV, out: Option<HookOutputV>) -> TuskChainV {
    match filter_verdict(c.commands[c.at], out, c.current) {
        Ok(current) => TuskChainV { at: c.at + 1, current, ..c },
        Err(reason) => TuskChainV { at: c.at + 1, withheld: Some(reason), ..c },
    }
}

/// What the chain makes of the result as it stands.
pub open spec fn chain_says(c: TuskChainV) -> TuskOutcomeV {
    match c.withheld {
        Some(reason) => TuskOutcomeV::Withheld(reason),
        None => match c.current {
            Some(t) => TuskOutcomeV::Replaced(t),
            None => TuskOutcomeV::Unchanged,
        },
    }
}

/// The chain after its filters ended as `outs` tells, as far as it still runs.
pub open spec fn chain_run(c: TuskChainV, outs: Seq<Option<HookOutputV>>) -> TuskChainV
    decreases outs.len(),
{
    if outs.len() == 0 || !chain_runs(c) {
        c
    } else {
        chain_run(chain_after(c, outs[0]), outs.drop_first())
    }
}

impl Hooks {
    /// The chain of filters over a result of `tool`.
    pub fn tusk(&self, tool: &str) -> (c: TuskChain)
        ensures
            c@ == (TuskChainV {
                commands: hooks_for(tusk_view(self.tusk@), tool@),
                at: 0,
                current: None,
                withheld: None,
            }),
    {
        let mut pairs: Vec<(String, String)> = Vec::new();
        let mut i: usize = 0;
        while i < self.tusk.len()
            invariant
                i <= self.tusk@.len(),
                pairs@.len() == i,
                forall|k: int|
                    0 <= k < i ==> (#[trigger] pairs@[k]).0@ == self.tusk@[k].matcher@
                        && pairs@[k].1@ == self.tusk@[k].command@,
            decreases self.tusk@.len() - i,
        {
            pairs.push((self.tusk[i].matcher.clone(), self.tusk[i].command.clone()));
            i += 1;
        }
        assert(rules_view(pairs@) =~= tusk_view(self.tusk@));
        TuskChain { commands: commands_matching(&pairs, tool), at: 0, current: None, withheld: None }
    }
}

impl TuskChain {
    /// The next filter to run and what it reads, if the chain goes on.
    pub fn next_filter<'a>(&'a self, result: &'a str) -> (r: Option<(&'a str, &'a str)>)
        ensures
            match r {
                Some((c, input)) => chain_runs(self@) && c@ == self@.commands[self@.at] && input@
                    == chain_input(self@, result@),
                None => !chain_runs(self@),
            },
    {
        if self.withheld.is_some() || self.at >= self.commands.len() {
            return None;
        }
        assert(self@.commands[self@.at] == self.commands@[self.at as int]@);
        let input = match &self.current {
            Some(t) => t.as_str(),
            None => result,
        };
        Some((self.commands[self.at].as_str(), input))
    }

    /// Takes in how the next filter ended; `None` where it could not be run or
    /// took too long.
    pub fn feed(&mut self, out: Option<HookOutput>)
        requires
            chain_runs(old(self)@),
        ensures
            final(self)@ == chain_after(old(self)@, output_view(out)),
    {
        assert(self@.commands[self@.at] == self.commands@[self.at as int]@);
        let size: usize = self.commands.len();
        let cmd = self.commands[self.at].clone();
        self.at = self.at + 1;
        match out {
            None => {
                self.withheld = Some(cat3("tusk filter `", cmd.as_str(), "` did not run"));
            },
            Some(o) => {
                if o.code == 0 {
                    if !trim(o.stdout.as_str()).as_str().is_empty() {
                        self.current = Some(o.stdout);
                    }
                } else if o.code == 2 {
                    let merged = o.merged();
                    if merged.as_str().is_empty() {
                        self.withheld = Some(cat2("result withheld by tusk filter: ", cmd.as_str()));
                    } else {
                        self.withheld = Some(merged);
                    }
                } else {
                    let code = signed_text(o.code);
                    self.withheld = Some(
                        cat5(
                            "tusk filter `",
                            cmd.as_str(),
                            "` exited ",
                            code.as_str(),
                            "; result withheld",
                        ),
                    );
                }
            },
        }
    }

    /// What the filters made of the result.
    pub fn finish(self) -> (r: TuskOutcome)
        ensures
            r@ == chain_says(self@),
    {
        match self.withheld {
            Some(reason) => TuskOutcome::Withheld(reason),
            None => match self.current {
                Some(t) => TuskOutcome::Replaced(t),
                None => TuskOutcome::Unchanged,
            },
        }
    }
}

/// The content and error flag that a tool result has once it is filtered.
pub open spec fn filtered(outcome: TuskOutcomeV, content: Seq<char>, is_error: bool) -> (
    Seq<char>,
    bool,
) {
    match outcome {
        TuskOutcomeV::Unchanged => (content, is_error),
        TuskOutcomeV::Replaced(t) => (t, is_error),
        TuskOutcomeV::Withheld(reason) => (reason, true),
    }
}

/// Applies the outcome of the filters to a result; see [`filtered`].
pub fn apply_filters(outcome: TuskOutcome, content: String, is_error: bool) -> (r: (String, bool))
    ensures
        (r.0@, r.1) == filtered(outcome@, content@, is_error),
{
    match outcome {
        TuskOutcome::Unchanged => (content, is_error),
        TuskOutcome::Replaced(t) => (t, is_error),
        TuskOutcome::Withheld(reason) => (reason, true),
    }
}

/// A chain of filters fails closed: if any of them does not run or does not
/// succeed, the result is withheld, whatever the others did.
pub proof fn law_filters_fail_closed(c: TuskChainV, outs: Seq<Option<HookOutputV>>, bad: int)
    requires
        c.withheld is None,
        0 <= c.at <= c.commands.len(),
        0 <= bad < outs.len(),
        c.at + bad < c.commands.len(),
        outs[bad] is None || outs[bad]->0.code != 0,
    ensures
        chain_says(chain_run(c, outs)) is Withheld,
    decreases outs.len(),
{
    let next = chain_after(c, outs[0]);
    if next.withheld is Some {
        assert(chain_run(next, outs.drop_first()) == next);
    } else {
        assert(bad > 0);
        law_filters_fail_closed(next, outs.drop_first(), bad - 1);
    }
}

/// A withheld result never shows through: it is gone from what the model, the
/// transcript and the user are given, and the reason alone is left, as an error.
pub proof fn law_withheld_result_is_gone(
    reason: Seq<char>,
    content: Seq<char>,
    other: Seq<char>,
    is_error: bool,
)
    ensures
        filtered(TuskOutcomeV::Withheld(reason), content, is_error) == filtered(
            TuskOutcomeV::Withheld(reason),
            other,
            is_error,
        ),
        filtered(TuskOutcomeV::Withheld(reason), content, is_error).1,
{
}

/// The chain stops at the first filter that withholds: what would run after it
/// changes nothing.
pub proof fn law_withholding_ends_the_chain(
    c: TuskChainV,
    outs: Seq<Option<HookOutputV>>,
    more: Seq<Option<HookOutputV>>,
)
    requires
        chain_run(c, outs).withheld is Some,
        0 <= c.at,
    ensures
        chain_run(c, outs + more) == chain_run(c, outs),
    decreases outs.len(),
{
    if outs.len() == 0 || !chain_runs(c) {
        if outs.len() == 0 {
            assert(outs + more =~= more);
        }
        assert(!chain_runs(c));
    } else {
        assert((outs + more)[0] == outs[0]);
        assert((outs + more).drop_first() =~= outs.drop_first() + more);
        law_withholding_ends_the_chain(chain_after(c, outs[0]), outs.drop_first(), more);
    }
}

/// A filter that succeeds reads what the filter before it printed, or the result
/// itself where none printed anything.
pub proof fn law_filters_compose(c: TuskChainV, o: HookOutputV, result: Seq<char>)
    requires
        chain_runs(c),
        o.code == 0,
    ensures
        chain_input(chain_after(c, Some(o)), result) == (if trimmed(o.stdout).len() == 0 {
            chain_input(c, result)
        } else {
            o.stdout
        }),
{
}

// ------------------------------------------------------------ stop hooks

/// What a `stop` hook asks for when it ended with `code` and printed `output`:
/// exit code 2 asks for another iteration, and says why.
pub open spec fn stop_verdict(cmd: Seq<char>, out: Option<HookOutputV>) -> Option<Seq<char>> {
    match out {
        Some(o) => if o.code == 2 {
            if merged_streams(o).len() == 0 {
                Some("stop hook requested another iteration: "@ + cmd)
            } else {
                Some(merged_streams(o))
            }
        } else {
            None
        },
        None => None,
    }
}

/// Computes [`stop_verdict`]. The hooks are asked in order until one asks for
/// another iteration.
pub fn judge_stop(cmd: &str, out: Option<HookOutput>) -> (r: Option<String>)
    ensures
        text_view(r) == stop_verdict(cmd@, output_view(out)),
{
    match out {
        Some(o) => {
            if o.code == 2 {
                let merged = o.merged();
                if merged.as_str().is_empty() {
                    Some(cat2("stop hook requested another iteration: ", cmd))
                } else {
                    Some(merged)
                }
            } else {
                None
            }
        },
        None => None,
    }
}

/// What the `stop` hooks ask for when they ended as `outs` tells, one after the
/// other: the first that asks for another iteration is heard.
pub open spec fn stop_of(cmds: Seq<Seq<char>>, outs: Seq<Option<HookOutputV>>) -> Option<Seq<char>>
    decreases outs.len(),
{
    if outs.len() == 0 || cmds.len() == 0 {
        None
    } else {
        match stop_verdict(cmds[0], outs[0]) {
            Some(reason) => Some(reason),
            None => stop_of(cmds.drop_first(), outs.drop_first()),
        }
    }
}

/// What some outputs stand for.
pub open spec fn output_views(outs: Seq<Option<HookOutput>>) -> Seq<Option<HookOutputV>> {
    outs.map_values(|o: Option<HookOutput>| output_view(o))
}

impl Hooks {
    /// What the `stop` hooks ask for, given how they ended in their order, as
    /// far as they were run; see [`stop_of`].
    pub fn stop(&self, outputs: Vec<Option<HookOutput>>) -> (r: Option<String>)
        ensures
            text_view(r) == stop_of(texts(self.stop@), output_views(outputs@)),
    {
        let ghost cmds = texts(self.stop@);
        let ghost outs = output_views(outputs@);
        let mut rest = outputs;
        let mut at: usize = 0;
        assert(cmds.skip(0) =~= cmds);
        while rest.len() > 0 && at < self.stop.len()
            invariant
                at <= self.stop@.len(),
                cmds == texts(self.stop@),
                outs == output_views(outputs@),
                stop_of(cmds, outs) == stop_of(cmds.skip(at as int), output_views(rest@)),
            decreases self.stop@.len() - at,
        {
            let ghost before = output_views(rest@);
            let out = rest.remove(0);
            assert(output_views(rest@) =~= before.drop_first());
            assert(before[0] == output_view(out));
            assert(cmds.skip(at as int)[0] == self.stop@[at as int]@);
            assert(cmds.skip(at as int).drop_first() =~= cmds.skip(at + 1));
            if let Some(reason) = judge_stop(self.stop[at].as_str(), out) {
                return Some(reason);
            }
            at += 1;
        }
        None
    }
}

/// A `stop` hook that cannot be run, or that exits with any other code than 2,
/// does not keep the run from ending.
pub proof fn law_only_code_two_continues(cmd: Seq<char>, out: Option<HookOutputV>)
    ensures
        stop_verdict(cmd, out) is Some <==> out is Some && out->0.code == 2,
{
}

// ------------------------------------------------------------ what is reported

/// What a command printed is told whole: what it wrote to its output comes first,
/// what it wrote to its error stream last, each without the white space around it,
/// with one line's end between them where there is both.
pub open spec fn tells_both(text: Seq<char>, stdout: Seq<char>, stderr: Seq<char>) -> bool {
    &&& begins(text, trimmed(stdout))
    &&& ends(text, trimmed(stderr))
    &&& text.len() == trimmed(stdout).len() + trimmed(stderr).len() + (if trimmed(stdout).len() > 0
        && trimmed(stderr).len() > 0 {
        1int
    } else {
        0
    })
    &&& trimmed(stdout).len() > 0 && trimmed(stderr).len() > 0
        ==> text[trimmed(stdout).len() as int] == '\n'
}

/// Both streams of a failed check are shown, whatever they hold, as long as they
/// take no more than 4000 bytes together. Of more than that the first 4000 bytes are
/// shown, cut at no other place, and it is said that there was more.
pub proof fn law_failed_output_shows_both_streams(stdout: Seq<char>, stderr: Seq<char>, k: int)
    ensures
        ({
            let (out, err) = (trimmed(stdout), trimmed(stderr));
            let shown = failure_text(stdout, stderr);
            let whole = if out.len() > 0 && err.len() > 0 {
                out.push('\n') + err
            } else {
                out + err
            };
            &&& tells_both(whole, stdout, stderr)
            &&& utf8_len(whole) <= 4000 ==> shown == whole
            &&& utf8_len(whole) > 4000 ==> ends(shown, "\n… [check output truncated]"@)
            &&& 0 <= k <= whole.len() && utf8_len(whole.take(k)) <= 4000 ==> begins(
                shown,
                whole.take(k),
            )
            &&& utf8_len(out) <= 4000 ==> begins(shown, out)
        }),
{
    reveal_strlit("\n");
    let (out, err) = (trimmed(stdout), trimmed(stderr));
    let shown = failure_text(stdout, stderr);
    let whole = if out.len() > 0 && err.len() > 0 {
        out.push('\n') + err
    } else {
        out + err
    };
    let note = "\n… [check output truncated]"@;
    assert(whole =~= (if err.len() == 0 {
        out
    } else if out.len() == 0 {
        err
    } else {
        out + "\n"@ + err
    }));
    assert(whole.subrange(0, out.len() as int) =~= out);
    assert(whole.subrange(whole.len() - err.len(), whole.len() as int) =~= err);
    assert(whole.take(out.len() as int) =~= out);
    law_cut_keeps_what_fits(whole, 4000, k);
    law_cut_keeps_what_fits(whole, 4000, out.len() as int);
    if utf8_len(whole) > 4000 {
        let cut = byte_prefix(whole, 4000);
        assert(shown.subrange(shown.len() - note.len(), shown.len() as int) =~= note);
        if 0 <= k <= cut.len() {
            assert(shown.subrange(0, k) =~= whole.take(k));
        }
        if out.len() <= cut.len() {
            assert(shown.subrange(0, out.len() as int) =~= out);
        }
    } else {
        if 0 <= k <= whole.len() {
            assert(shown.subrange(0, k) =~= whole.take(k));
        }
    }
}

/// What a hook printed is told whole, from both streams.
pub proof fn law_hook_output_tells_both_streams(o: HookOutputV)
    ensures
        tells_both(merged_streams(o), o.stdout, o.stderr),
{
    reveal_strlit("\n");
    let (out, err) = (trimmed(o.stdout), trimmed(o.stderr));
    let text = merged_streams(o);
    assert(text.subrange(0, out.len() as int) =~= out);
    assert(text.subrange(text.len() - err.len(), text.len() as int) =~= err);
}

proof fn lemma_stands(all: Seq<char>, front: Seq<char>, n: Seq<char>, back: Seq<char>)
    requires
        all == front + n + back,
    ensures
        holds(all, n),
{
    let at = front.len() as int;
    assert(all.subrange(at, at + n.len()) =~= n);
    assert(occurs_at(all, n, at));
}

proof fn lemma_failed_lead()
    ensures
        "\n\n[system] post-edit check failed — fix before proceeding:\n$ "@
            == "\n\n[system] post-edit check failed — fix before proceeding:\n"@ + "$ "@,
{
    reveal_strlit("\n\n[system] post-edit check failed — fix before proceeding:\n$ ");
    reveal_strlit("\n\n[system] post-edit check failed — fix before proceeding:\n");
    reveal_strlit("$ ");
    assert("\n\n[system] post-edit check failed — fix before proceeding:\n$ "@
        =~= "\n\n[system] post-edit check failed — fix before proceeding:\n"@ + "$ "@);
}

proof fn lemma_open_lead()
    ensures
        ({
            let long = "\n\n[system] post-edit check did not complete — this is verifier/infrastructure evidence, not a code diagnostic. Do not repeat the same command blindly; continue with a cheaper targeted check or the final oracle:\n$ "@;
            long.len() >= 2 && long == long.take(long.len() - 2) + "$ "@
        }),
{
    let long = "\n\n[system] post-edit check did not complete — this is verifier/infrastructure evidence, not a code diagnostic. Do not repeat the same command blindly; continue with a cheaper targeted check or the final oracle:\n$ "@;
    reveal_strlit("\n\n[system] post-edit check did not complete — this is verifier/infrastructure evidence, not a code diagnostic. Do not repeat the same command blindly; continue with a cheaper targeted check or the final oracle:\n$ ");
    reveal_strlit("$ ");
    assert(long[long.len() - 2] == '$' && long[long.len() - 1] == ' ');
    assert(long =~= long.take(long.len() - 2) + "$ "@);
}

proof fn lemma_unchanged_notes()
    ensures
        ({
            let said = " diagnostic(s) already reported above, unchanged"@;
            let back = " diagnostic(s) already reported above, unchanged:\n"@;
            let tail = " diagnostic(s) already reported above, unchanged)"@;
            &&& " diagnostic(s) already reported above, unchanged:\n$ "@ == back + "$ "@
            &&& back == said + back.skip(said.len() as int)
            &&& tail == said + tail.skip(said.len() as int)
        }),
{
    let said = " diagnostic(s) already reported above, unchanged"@;
    let back = " diagnostic(s) already reported above, unchanged:\n"@;
    let tail = " diagnostic(s) already reported above, unchanged)"@;
    reveal_strlit("$ ");
    reveal_strlit(" diagnostic(s) already reported above, unchanged");
    reveal_strlit(" diagnostic(s) already reported above, unchanged:\n$ ");
    reveal_strlit(" diagnostic(s) already reported above, unchanged:\n");
    reveal_strlit(" diagnostic(s) already reported above, unchanged)");
    assert(" diagnostic(s) already reported above, unchanged:\n$ "@ =~= back + "$ "@);
    assert(back =~= said + back.skip(said.len() as int));
    assert(tail =~= said + tail.skip(said.len() as int));
}

/// The report of a failed check names its command and shows what it printed: all of
/// it where nothing is held back, else all that is new, with the number of lines
/// that were held back. One that came to no verdict is shown as well, and one that
/// passed leaves no trace.
pub proof fn law_report_shows_the_failure(
    cmd: Seq<char>,
    output: String,
    dedup: bool,
    fresh: Seq<char>,
    repeated: nat,
)
    ensures
        check_report(cmd, CheckOutcome::Passed, dedup, fresh, repeated).len() == 0,
        ({
            let failed = check_report(cmd, CheckOutcome::Failed(output), dedup, fresh, repeated);
            let open = check_report(cmd, CheckOutcome::Incomplete(output), dedup, fresh, repeated);
            &&& holds(failed, "$ "@ + cmd)
            &&& !dedup ==> ends(failed, "$ "@ + cmd + "\n"@ + output@)
            &&& dedup && fresh.len() > 0 ==> holds(failed, "$ "@ + cmd + "\n"@ + fresh)
            &&& dedup && repeated > 0 ==> holds(
                failed,
                decimal(repeated) + " diagnostic(s) already reported above, unchanged"@,
            )
            &&& ends(open, "$ "@ + cmd + "\n"@ + output@)
        }),
{
    let failed = check_report(cmd, CheckOutcome::Failed(output), dedup, fresh, repeated);
    let open = check_report(cmd, CheckOutcome::Incomplete(output), dedup, fresh, repeated);
    lemma_open_lead();
    let told = "$ "@ + cmd + "\n"@ + output@;
    let long = "\n\n[system] post-edit check did not complete — this is verifier/infrastructure evidence, not a code diagnostic. Do not repeat the same command blindly; continue with a cheaper targeted check or the final oracle:\n$ "@;
    assert(open =~= long.take(long.len() - 2) + told);
    assert(open.subrange(open.len() - told.len(), open.len() as int) =~= told);
    if !dedup {
        lemma_plain_report(failed, cmd, output@);
    } else if fresh.len() == 0 {
        lemma_still_failing(failed, cmd, repeated);
    } else if repeated == 0 {
        lemma_plain_report(failed, cmd, fresh);
    } else {
        lemma_mixed_report(failed, cmd, fresh, repeated);
    }
}

proof fn lemma_plain_report(all: Seq<char>, cmd: Seq<char>, output: Seq<char>)
    requires
        all == "\n\n[system] post-edit check failed — fix before proceeding:\n$ "@ + cmd + "\n"@
            + output,
    ensures
        holds(all, "$ "@ + cmd),
        ends(all, "$ "@ + cmd + "\n"@ + output),
        holds(all, "$ "@ + cmd + "\n"@ + output),
{
    lemma_failed_lead();
    let lead = "\n\n[system] post-edit check failed — fix before proceeding:\n"@;
    let name = "$ "@ + cmd;
    let back = "\n"@ + output;
    let told = "$ "@ + cmd + "\n"@ + output;
    assert(all =~= lead + name + back);
    lemma_stands(all, lead, name, back);
    assert(all =~= lead + told);
    let at = lead.len() as int;
    assert(all.subrange(at, at + told.len()) =~= told);
    assert(occurs_at(all, told, at));
}

proof fn lemma_still_failing(all: Seq<char>, cmd: Seq<char>, repeated: nat)
    requires
        all == "\n\n[system] post-edit check still failing — "@ + decimal(repeated)
            + " diagnostic(s) already reported above, unchanged:\n$ "@ + cmd,
    ensures
        holds(all, "$ "@ + cmd),
        holds(all, decimal(repeated) + " diagnostic(s) already reported above, unchanged"@),
{
    lemma_unchanged_notes();
    let still = "\n\n[system] post-edit check still failing — "@;
    let said = " diagnostic(s) already reported above, unchanged"@;
    let back = " diagnostic(s) already reported above, unchanged:\n"@;
    let rest = back.skip(said.len() as int);
    let number = decimal(repeated);
    let name = "$ "@ + cmd;
    assert(all =~= (still + number + back) + name + Seq::<char>::empty());
    lemma_stands(all, still + number + back, name, Seq::empty());
    assert(still + number + back + name =~= still + (number + said) + (rest + name));
    lemma_stands(all, still, number + said, rest + name);
}

proof fn lemma_mixed_report(all: Seq<char>, cmd: Seq<char>, fresh: Seq<char>, repeated: nat)
    requires
        all == "\n\n[system] post-edit check failed — fix before proceeding:\n$ "@ + cmd + "\n"@
            + fresh + "\n(+"@ + decimal(repeated)
            + " diagnostic(s) already reported above, unchanged)"@,
    ensures
        holds(all, "$ "@ + cmd),
        holds(all, "$ "@ + cmd + "\n"@ + fresh),
        holds(all, decimal(repeated) + " diagnostic(s) already reported above, unchanged"@),
{
    lemma_unchanged_notes();
    let said = " diagnostic(s) already reported above, unchanged"@;
    let tail = " diagnostic(s) already reported above, unchanged)"@;
    let rest = tail.skip(said.len() as int);
    let front = "\n\n[system] post-edit check failed — fix before proceeding:\n$ "@ + cmd + "\n"@
        + fresh;
    let number = decimal(repeated);
    lemma_plain_report(front, cmd, fresh);
    assert(all.take(front.len() as int) =~= front);
    lemma_held_in_front(front, all, "$ "@ + cmd);
    lemma_held_in_front(front, all, "$ "@ + cmd + "\n"@ + fresh);
    assert(all =~= (front + "\n(+"@) + (number + said) + rest);
    lemma_stands(all, front + "\n(+"@, number + said, rest);
}

/// A line that is not blank and whose diagnostic was not reported, neither before nor
/// by a line above it, is shown as it is.
pub proof fn law_new_diagnostics_are_shown(known: Set<Seq<char>>, ls: Seq<Seq<char>>, i: int)
    requires
        0 <= i < ls.len(),
        trimmed(ls[i]).len() > 0,
        !known.contains(identity(ls[i])),
        forall|j: int|
            0 <= j < i && trimmed(#[trigger] ls[j]).len() > 0 ==> identity(ls[j]) != identity(ls[i]),
    ensures
        holds(reduced_lines(known, ls).1, ls[i] + "\n"@),
    decreases ls.len(),
{
    let front = ls.drop_last();
    let (k, fresh, repeated) = reduced_lines(known, front);
    let wanted = ls[i] + "\n"@;
    if i < ls.len() - 1 {
        assert forall|j: int| 0 <= j < i && trimmed(#[trigger] front[j]).len() > 0 implies identity(
            front[j],
        ) != identity(front[i]) by {
            assert(front[j] == ls[j]);
        }
        law_new_diagnostics_are_shown(known, front, i);
        let at = choose|at: int| occurs_at(fresh, wanted, at);
        let now = reduced_lines(known, ls).1;
        assert(now.subrange(at, at + wanted.len()) =~= fresh.subrange(at, at + wanted.len()));
        assert(occurs_at(now, wanted, at));
    } else {
        lemma_learnt(known, front, identity(ls[i]));
        let now = reduced_lines(known, ls).1;
        assert(now =~= fresh + wanted + Seq::<char>::empty());
        lemma_stands(now, fresh, wanted, Seq::empty());
    }
}

proof fn lemma_learnt(known: Set<Seq<char>>, ls: Seq<Seq<char>>, id: Seq<char>)
    ensures
        reduced_lines(known, ls).0.contains(id) ==> known.contains(id) || exists|j: int|
            0 <= j < ls.len() && trimmed(#[trigger] ls[j]).len() > 0 && identity(ls[j]) == id,
    decreases ls.len(),
{
    if ls.len() > 0 {
        let front = ls.drop_last();
        lemma_learnt(known, front, id);
        if reduced_lines(known, ls).0.contains(id) && !known.contains(id) {
            if reduced_lines(known, front).0.contains(id) {
                let j = choose|j: int|
                    0 <= j < front.len() && trimmed(#[trigger] front[j]).len() > 0 && identity(
                        front[j],
                    ) == id;
                assert(ls[j] == front[j]);
            } else {
                assert(identity(ls[ls.len() - 1]) == id);
            }
        }
    }
}

/// The report of several checks holds the report of each of them.
pub proof fn law_every_check_is_reported(
    ledger: DiagnosticsLedger,
    cmds: Seq<Seq<char>>,
    outcomes: Seq<CheckOutcome>,
    dedup: bool,
    i: int,
)
    requires
        cmds.len() == outcomes.len(),
        0 <= i < cmds.len(),
    ensures
        ({
            let all = all_reports(ledger, cmds, outcomes, dedup);
            let (_, fresh, repeated) = reduced_lines(
                ledger.known(cmds[i]),
                lines_of(outcomes[i]->Failed_0@),
            );
            &&& holds(all, check_report(cmds[i], outcomes[i], dedup, trim_end(fresh), repeated))
            &&& outcomes[i] is Failed ==> holds(all, "$ "@ + cmds[i])
            &&& outcomes[i] is Incomplete ==> holds(all, outcomes[i]->Incomplete_0@)
        }),
    decreases cmds.len(),
{
    let all = all_reports(ledger, cmds, outcomes, dedup);
    let (known, fresh, repeated) = reduced_lines(
        ledger.known(cmds[i]),
        lines_of(outcomes[i]->Failed_0@),
    );
    let own = check_report(cmds[i], outcomes[i], dedup, trim_end(fresh), repeated);
    let front = all_reports(ledger, cmds.drop_last(), outcomes.drop_last(), dedup);
    if i < cmds.len() - 1 {
        law_every_check_is_reported(ledger, cmds.drop_last(), outcomes.drop_last(), dedup, i);
        assert(all.take(front.len() as int) =~= front);
        lemma_held_in_front(front, all, own);
    } else {
        assert(all =~= front + own + Seq::<char>::empty());
        lemma_stands(all, front, own, Seq::empty());
    }
    match outcomes[i] {
        CheckOutcome::Failed(output) => {
            law_report_shows_the_failure(cmds[i], output, dedup, trim_end(fresh), repeated);
            lemma_held_within(all, own, "$ "@ + cmds[i]);
        },
        CheckOutcome::Incomplete(output) => {
            law_report_shows_the_failure(cmds[i], output, dedup, trim_end(fresh), repeated);
            let told = "$ "@ + cmds[i] + "\n"@ + output@;
            assert(own.subrange(own.len() - output@.len(), own.len() as int) =~= output@) by {
                assert(own.subrange(own.len() - told.len(), own.len() as int) == told);
                assert(told.subrange(told.len() - output@.len(), told.len() as int) =~= output@);
            }
            assert(occurs_at(own, output@, own.len() - output@.len()));
            lemma_held_within(all, own, output@);
        },
        CheckOutcome::Passed => {},
    }
}

proof fn lemma_held_in_front(front: Seq<char>, all: Seq<char>, n: Seq<char>)
    requires
        holds(front, n),
        front.len() <= all.len(),
        all.take(front.len() as int) == front,
    ensures
        holds(all, n),
{
    let at = choose|at: int| occurs_at(front, n, at);
    assert(all.subrange(at, at + n.len()) =~= front.subrange(at, at + n.len()));
    assert(occurs_at(all, n, at));
}

proof fn lemma_held_within(all: Seq<char>, part: Seq<char>, n: Seq<char>)
    requires
        holds(all, part),
        holds(part, n),
    ensures
        holds(all, n),
{
    let a = choose|a: int| occurs_at(all, part, a);
    let b = choose|b: int| occurs_at(part, n, b);
    assert(all.subrange(a, a + part.len()).subrange(b, b + n.len()) =~= all.subrange(
        a + b,
        a + b + n.len(),
    ));
    assert(occurs_at(all, n, a + b));
}

/// A command runs exactly where a rule names it whose glob matches one of the edited
/// paths.
pub proof fn law_matching_rules_run(
    rules: Seq<(Seq<char>, Seq<char>)>,
    paths: Seq<Seq<char>>,
    cmd: Seq<char>,
)
    ensures
        commands_for(rules, paths).contains(cmd) <==> exists|r: int, p: int|
            0 <= r < rules.len() && 0 <= p < paths.len() && rules[r].1 == cmd && #[trigger] globbed(
                rules[r].0,
                paths[p],
            ),
    decreases rules.len(),
{
    if rules.len() > 0 {
        let front = rules.drop_last();
        let last = rules.len() - 1;
        let (before, after) = (commands_for(front, paths), commands_for(rules, paths));
        law_matching_rules_run(front, paths, cmd);
        if after.contains(cmd) {
            let k = choose|k: int| 0 <= k < after.len() && after[k] == cmd;
            if k < before.len() {
                assert(before[k] == cmd);
                let (r, p) = choose|r: int, p: int|
                    0 <= r < front.len() && 0 <= p < paths.len() && front[r].1 == cmd
                        && #[trigger] globbed(front[r].0, paths[p]);
                assert(rules[r] == front[r]);
                assert(globbed(rules[r].0, paths[p]));
            } else {
                let p = choose|p: int|
                    0 <= p < paths.len() && globbed(rules[last].0, #[trigger] paths[p]);
                assert(globbed(rules[last].0, paths[p]));
            }
        }
        if exists|r: int, p: int|
            0 <= r < rules.len() && 0 <= p < paths.len() && rules[r].1 == cmd && #[trigger] globbed(
                rules[r].0,
                paths[p],
            ) {
            let (r, p) = choose|r: int, p: int|
                0 <= r < rules.len() && 0 <= p < paths.len() && rules[r].1 == cmd
                    && #[trigger] globbed(rules[r].0, paths[p]);
            if r < last {
                assert(front[r] == rules[r]);
                assert(globbed(front[r].0, paths[p]));
            }
            if before.contains(cmd) {
                let k = choose|k: int| 0 <= k < before.len() && before[k] == cmd;
                assert(after[k] == cmd);
            } else {
                assert(matches_some(rules[last].0, paths));
                assert(after[after.len() - 1] == cmd);
            }
        }
    }
}

/// Every field of the section that holds a text is a rule, its name the glob and the
/// text the command, and there is no other rule.
pub proof fn law_rules_are_the_configured_ones(
    fields: Seq<(Seq<char>, JsonV)>,
    rule: (Seq<char>, Seq<char>),
)
    ensures
        configured_rules(Some(JsonV::Object(fields))).contains(rule) <==> fields.contains(
            (rule.0, JsonV::Str(rule.1)),
        ),
        configured_rules(None).len() == 0,
    decreases fields.len(),
{
    let all = text_rules(fields);
    let entry = (rule.0, JsonV::Str(rule.1));
    if fields.len() > 0 {
        let front = fields.drop_last();
        let before = text_rules(front);
        law_rules_are_the_configured_ones(front, rule);
        assert(fields =~= front.push(fields.last()));
        if fields.contains(entry) {
            let k = choose|k: int| 0 <= k < fields.len() && fields[k] == entry;
            if k < front.len() {
                assert(front[k] == entry);
                let j = choose|j: int| 0 <= j < before.len() && before[j] == rule;
                assert(all[j] == rule);
            } else {
                assert(all[all.len() - 1] == rule);
            }
        }
        if all.contains(rule) {
            let k = choose|k: int| 0 <= k < all.len() && all[k] == rule;
            if k < before.len() {
                assert(before[k] == rule);
                let j = choose|j: int| 0 <= j < front.len() && front[j] == entry;
                assert(fields[j] == entry);
            } else {
                assert(fields[fields.len() - 1] == entry);
            }
        }
    }
}

/// The hooks that run for a tool are those whose glob matches it, all of them, each
/// in its turn.
pub proof fn law_matching_hooks_run(
    hooks: Seq<(Seq<char>, Seq<char>)>,
    tool: Seq<char>,
    cmd: Seq<char>,
)
    ensures
        hooks_for(hooks, tool).contains(cmd) <==> exists|h: int|
            0 <= h < hooks.len() && (#[trigger] hooks[h]).1 == cmd && globbed(hooks[h].0, tool),
        (forall|h: int| 0 <= h < hooks.len() ==> globbed((#[trigger] hooks[h]).0, tool))
            ==> hooks_for(hooks, tool) == hooks.map_values(|h: (Seq<char>, Seq<char>)| h.1),
    decreases hooks.len(),
{
    let names = hooks.map_values(|h: (Seq<char>, Seq<char>)| h.1);
    if hooks.len() > 0 {
        let front = hooks.drop_last();
        let last = hooks.len() - 1;
        let (before, after) = (hooks_for(front, tool), hooks_for(hooks, tool));
        law_matching_hooks_run(front, tool, cmd);
        if after.contains(cmd) {
            let k = choose|k: int| 0 <= k < after.len() && after[k] == cmd;
            if k < before.len() {
                assert(before[k] == cmd);
                let h = choose|h: int|
                    0 <= h < front.len() && (#[trigger] front[h]).1 == cmd && globbed(
                        front[h].0,
                        tool,
                    );
                assert(hooks[h] == front[h]);
            } else {
                assert(hooks[last].1 == cmd);
            }
        }
        if exists|h: int|
            0 <= h < hooks.len() && (#[trigger] hooks[h]).1 == cmd && globbed(hooks[h].0, tool) {
            let h = choose|h: int|
                0 <= h < hooks.len() && (#[trigger] hooks[h]).1 == cmd && globbed(hooks[h].0, tool);
            if h < last {
                assert(front[h] == hooks[h]);
                let k = choose|k: int| 0 <= k < before.len() && before[k] == cmd;
                assert(after[k] == cmd);
            } else {
                assert(after[after.len() - 1] == cmd);
            }
        }
        if forall|h: int| 0 <= h < hooks.len() ==> globbed((#[trigger] hooks[h]).0, tool) {
            assert forall|h: int| 0 <= h < front.len() implies globbed((#[trigger] front[h]).0, tool) by {
                assert(front[h] == hooks[h]);
            }
            assert(globbed(hooks[last].0, tool));
            assert(names =~= front.map_values(|h: (Seq<char>, Seq<char>)| h.1).push(hooks[last].1));
        }
    } else {
        assert(hooks_for(hooks, tool) =~= names);
    }
}

/// Every entry of a list of hooks that has a command is a hook, under its glob or for
/// every tool; no other entry is.
pub proof fn law_listed_hooks_are_taken(items: Seq<JsonV>, i: int)
    ensures
        0 <= i < items.len() ==> match (field(items[i], "command"@), field(items[i], "match"@)) {
            (Some(JsonV::Str(c)), Some(JsonV::Str(g))) => hook_entries(items).contains((g, c)),
            (Some(JsonV::Str(c)), None) => hook_entries(items).contains(("*"@, c)),
            _ => true,
        },
        (forall|k: int|
            0 <= k < items.len() ==> !(field(#[trigger] items[k], "command"@) matches Some(
                JsonV::Str(_),
            ))) ==> hook_entries(items).len() == 0,
        hook_entries(items).len() <= items.len(),
    decreases items.len(),
{
    if items.len() > 0 {
        let front = items.drop_last();
        let (before, after) = (hook_entries(front), hook_entries(items));
        law_listed_hooks_are_taken(front, i);
        if 0 <= i < items.len() - 1 {
            assert(front[i] == items[i]);
            if let Some(JsonV::Str(c)) = field(items[i], "command"@) {
                let glob = match field(items[i], "match"@) {
                    Some(JsonV::Str(g)) => g,
                    _ => "*"@,
                };
                if before.contains((glob, c)) {
                    let k = choose|k: int| 0 <= k < before.len() && before[k] == (glob, c);
                    assert(after[k] == (glob, c));
                }
            }
        } else if i == items.len() - 1 {
            if after.len() > 0 {
                assert(after[after.len() - 1] == after.last());
            }
        }
        if forall|k: int|
            0 <= k < items.len() ==> !(field(#[trigger] items[k], "command"@) matches Some(
                JsonV::Str(_),
            )) {
            assert forall|k: int| 0 <= k < front.len() implies !(field(
                #[trigger] front[k],
                "command"@,
            ) matches Some(JsonV::Str(_))) by {
                assert(front[k] == items[k]);
            }
            assert(!(field(items[items.len() - 1], "command"@) matches Some(JsonV::Str(_))));
        }
    }
}

/// Every command of a list is taken, bare or under its name, in order.
pub proof fn law_listed_commands_are_taken(items: Seq<JsonV>, i: int)
    ensures
        0 <= i < items.len() ==> match items[i] {
            JsonV::Str(c) => command_entries(items).contains(c),
            _ => match field(items[i], "command"@) {
                Some(JsonV::Str(c)) => command_entries(items).contains(c),
                _ => true,
            },
        },
        command_entries(items).len() <= items.len(),
        (forall|k: int| 0 <= k < items.len() ==> (#[trigger] items[k]) is Str)
            ==> command_entries(items) == items.map_values(|v: JsonV| v->Str_0),
    decreases items.len(),
{
    let plain = items.map_values(|v: JsonV| v->Str_0);
    if items.len() > 0 {
        let front = items.drop_last();
        let (before, after) = (command_entries(front), command_entries(items));
        law_listed_commands_are_taken(front, i);
        if 0 <= i < items.len() - 1 {
            assert(front[i] == items[i]);
            let c = match items[i] {
                JsonV::Str(c) => Some(c),
                _ => match field(items[i], "command"@) {
                    Some(JsonV::Str(c)) => Some(c),
                    _ => None,
                },
            };
            if let Some(c) = c {
                let k = choose|k: int| 0 <= k < before.len() && before[k] == c;
                assert(after[k] == c);
            }
        } else if i == items.len() - 1 {
            if after.len() > 0 {
                assert(after[after.len() - 1] == after.last());
            }
        }
        if forall|k: int| 0 <= k < items.len() ==> (#[trigger] items[k]) is Str {
            assert forall|k: int| 0 <= k < front.len() implies (#[trigger] front[k]) is Str by {
                assert(front[k] == items[k]);
            }
            assert(items[items.len() - 1] is Str);
            assert(plain =~= front.map_values(|v: JsonV| v->Str_0).push(items.last()->Str_0));
        }
    } else {
        assert(command_entries(items) =~= plain);
    }
}

/// What a guard hook decides is its own word: it lets the call through with code 0,
/// refuses it with 2, has it asked about with 3, rewrites it with 4 and answers it
/// with 5, in what it printed. Another code, or none, decides nothing.
pub proof fn law_guard_hooks_decide_by_code(cmd: Seq<char>, o: HookOutputV)
    ensures
        ({
            let v = gate_verdict(cmd, Some(o));
            &&& gate_verdict(cmd, None) is None
            &&& o.code == 0 <==> v == Some(PreVerdictV::Allow)
            &&& v is None <==> o.code == 1 || o.code < 0 || o.code > 5
            &&& v is Some ==> {
                &&& o.code == 3 <==> v->0 is Ask
                &&& o.code == 5 <==> v->0 is Short
                &&& o.code == 2 ==> v->0 is Deny
                &&& v->0 is Short ==> v->0->Short_0 == o.stdout
                &&& v->0 is Ask ==> says_why(v->0->Ask_0, cmd, o)
                &&& o.code == 2 ==> says_why(v->0->Deny_0, cmd, o)
                &&& o.code == 4 ==> match crate::json::parsed_json(trimmed(o.stdout)) {
                    Some(JsonV::Object(fields)) => v->0 == PreVerdictV::AllowRewritten(
                        JsonV::Object(fields),
                    ),
                    _ => v->0 is Deny,
                }
            }
        }),
{
    law_hook_output_tells_both_streams(o);
    if merged_streams(o).len() == 0 {
        let front = (if o.code == 2 {
            "blocked"@
        } else {
            "held for confirmation"@
        }) + " by pre_tool_use hook: "@;
        let all = front + cmd;
        assert(all.subrange(all.len() - cmd.len(), all.len() as int) =~= cmd);
    }
}

/// The reason is what the hook printed, from both streams, or names the hook where it
/// printed nothing.
pub open spec fn says_why(reason: Seq<char>, cmd: Seq<char>, o: HookOutputV) -> bool {
    if trimmed(o.stdout).len() == 0 && trimmed(o.stderr).len() == 0 {
        ends(reason, cmd)
    } else {
        tells_both(reason, o.stdout, o.stderr)
    }
}

/// A filter that succeeds and prints something puts exactly that in the place of the
/// result; one that prints nothing leaves it; one that refuses withholds it and says
/// why.
pub proof fn law_filters_print_the_result(c: TuskChainV, o: HookOutputV)
    requires
        chain_runs(c),
    ensures
        ({
            let next = chain_after(c, Some(o));
            let cmd = c.commands[c.at];
            &&& next.commands == c.commands && next.at == c.at + 1
            &&& o.code == 0 && trimmed(o.stdout).len() > 0 ==> next.current == Some(o.stdout)
                && next.withheld is None
            &&& o.code == 0 && trimmed(o.stdout).len() == 0 ==> next.current == c.current
                && next.withheld is None
            &&& o.code == 2 ==> next.withheld is Some && says_why(next.withheld->0, cmd, o)
            &&& o.code != 0 ==> next.withheld is Some
            &&& next.withheld is None && next.current is None ==> chain_says(next)
                == TuskOutcomeV::Unchanged
            &&& next.withheld is None && next.current is Some ==> chain_says(next)
                == TuskOutcomeV::Replaced(next.current->0)
            &&& next.withheld is Some ==> chain_says(next) == TuskOutcomeV::Withheld(
                next.withheld->0,
            )
        }),
{
    law_hook_output_tells_both_streams(o);
    let cmd = c.commands[c.at];
    let all = "result withheld by tusk filter: "@ + cmd;
    assert(all.subrange(all.len() - cmd.len(), all.len() as int) =~= cmd);
}

/// The run goes on for the first stop hook that exits with 2, in its words; where
/// none does, it ends.
pub proof fn law_first_stop_hook_is_heard(
    cmds: Seq<Seq<char>>,
    outs: Seq<Option<HookOutputV>>,
    i: int,
)
    requires
        forall|j: int|
            0 <= j < i && j < outs.len() ==> !((#[trigger] outs[j]) is Some && outs[j]->0.code == 2),
    ensures
        0 <= i < outs.len() && i < cmds.len() && outs[i] is Some && outs[i]->0.code == 2 ==> (
        stop_of(cmds, outs) is Some && says_why(stop_of(cmds, outs)->0, cmds[i], outs[i]->0)),
        i >= outs.len() || i >= cmds.len() ==> stop_of(cmds, outs) is None,
    decreases outs.len(),
{
    if outs.len() > 0 && cmds.len() > 0 {
        if i == 0 {
            if let Some(o) = outs[0] {
                law_hook_output_tells_both_streams(o);
                let all = "stop hook requested another iteration: "@ + cmds[0];
                assert(all.subrange(all.len() - cmds[0].len(), all.len() as int) =~= cmds[0]);
            }
        } else if i > 0 {
            assert(!(outs[0] is Some && outs[0]->0.code == 2));
            let rest = outs.drop_first();
            assert forall|j: int| 0 <= j < i - 1 && j < rest.len() implies !((#[trigger] rest[j])
                is Some && rest[j]->0.code == 2) by {
                assert(rest[j] == outs[j + 1]);
            }
            law_first_stop_hook_is_heard(cmds.drop_first(), rest, i - 1);
        }
    }
}

/// What is switched off does not run, and what is not runs as it is configured.
pub proof fn law_switched_off_hooks_do_not_run(what: Seq<(Seq<char>, Seq<char>)>)
    ensures
        unless(true, what).len() == 0,
        unless(false, what) == what,
{
}

} // verus!
