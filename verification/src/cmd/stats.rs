//! What the sessions on this machine say of the tools: how often each of them is
//! called, and how that changes as the context grows.
use vstd::prelude::*;
use crate::ai::setting_view;
use crate::paths::{extension, extension_of};
use crate::table::{
    find_spot, get_row, in_key_order, law_row_is_put, lemma_taken_and_put, put_row, row_views,
    row_with, spot, take_row, with_row,
};
use crate::text::{
    cat2, cat3, comes_before, contains, decimal, holds, join, joined, lemma_order_total,
    lemma_order_transitive, occurs_at, precedes, put, put_number, same, size_text, texts,
};

verus! {

// ------------------------------------------------------------ buckets

/// The labels of the buckets, in the order in which they are shown; the last one
/// is open.
pub open spec fn bucket_labels() -> Seq<Seq<char>> {
    seq!["<10k"@, "10-30k"@, "30-60k"@, ">60k"@]
}

/// The bucket of a session, by the most tokens that its context held.
pub open spec fn bucket(peak: nat) -> Seq<char> {
    if peak < 10_000 {
        "<10k"@
    } else if peak < 30_000 {
        "10-30k"@
    } else if peak < 60_000 {
        "30-60k"@
    } else {
        ">60k"@
    }
}

/// Computes [`bucket`].
pub fn bucket_of(peak: u32) -> (r: &'static str)
    ensures
        r@ == bucket(peak as nat),
{
    if peak < 10_000 {
        "<10k"
    } else if peak < 30_000 {
        "10-30k"
    } else if peak < 60_000 {
        "30-60k"
    } else {
        ">60k"
    }
}

// ------------------------------------------------------------ counts

/// The sum of two counts, as far as a count goes.
pub open spec fn sum64(a: u64, b: u64) -> u64 {
    if a + b > u64::MAX {
        u64::MAX
    } else {
        (a + b) as u64
    }
}

/// The sum of two sizes, as far as a size goes.
pub open spec fn sum_size(a: usize, b: usize) -> usize {
    if a + b > usize::MAX {
        usize::MAX
    } else {
        (a + b) as usize
    }
}

/// The larger of two counts.
pub open spec fn larger(a: u64, b: u64) -> u64 {
    if a < b {
        b
    } else {
        a
    }
}

fn plus64(a: u64, b: u64) -> (r: u64)
    ensures
        r == sum64(a, b),
{
    a.saturating_add(b)
}

fn plus(a: usize, b: usize) -> (r: usize)
    ensures
        r == sum_size(a, b),
{
    a.saturating_add(b)
}

fn greater(a: u64, b: u64) -> (r: u64)
    ensures
        r == larger(a, b),
{
    if a < b {
        b
    } else {
        a
    }
}

/// What the runs of a session counted.
#[derive(Clone, Copy, Debug)]
pub struct TelemetryTotals {
    pub runs: u64,
    pub compaction_fired: u64,
    pub historia_writes: u64,
    pub historia_hits: u64,
    pub system_prompt_tokens: u64,
    pub hook_pre_runs: u64,
    pub hook_pre_denies: u64,
    pub hook_post_runs: u64,
    pub hook_post_failures: u64,
    pub hook_stop_runs: u64,
    pub hook_stop_retries: u64,
    pub hook_stop_exhausted: u64,
    pub tusk_runs: u64,
    pub tusk_edits: u64,
    pub tusk_withheld: u64,
    pub oracle_runs: u64,
    pub oracle_failures: u64,
    pub oracle_retries: u64,
    pub oracle_rollbacks: u64,
    pub oracle_exhausted: u64,
    pub ask_user_rounds: u64,
    pub ask_user_questions: u64,
    pub verify_tool_runs: u64,
    pub spill_writes: u64,
    pub read_outlines: u64,
    pub patch_applies: u64,
    pub patch_rejects: u64,
    pub stream_rule_trips: u64,
    pub plan_contract_initialized: u64,
    pub plan_contract_updated: u64,
    pub plan_mutations_blocked: u64,
    pub tool_batches: u64,
    pub tool_calls_emitted: u64,
    pub completion_checks_fired: u64,
    pub test_file_mutations: u64,
    pub best_of_attempts: u64,
    pub best_of_selections: u64,
}

/// Nothing was counted.
pub open spec fn no_counts() -> TelemetryTotals {
    TelemetryTotals {
        runs: 0,
        compaction_fired: 0,
        historia_writes: 0,
        historia_hits: 0,
        system_prompt_tokens: 0,
        hook_pre_runs: 0,
        hook_pre_denies: 0,
        hook_post_runs: 0,
        hook_post_failures: 0,
        hook_stop_runs: 0,
        hook_stop_retries: 0,
        hook_stop_exhausted: 0,
        tusk_runs: 0,
        tusk_edits: 0,
        tusk_withheld: 0,
        oracle_runs: 0,
        oracle_failures: 0,
        oracle_retries: 0,
        oracle_rollbacks: 0,
        oracle_exhausted: 0,
        ask_user_rounds: 0,
        ask_user_questions: 0,
        verify_tool_runs: 0,
        spill_writes: 0,
        read_outlines: 0,
        patch_applies: 0,
        patch_rejects: 0,
        stream_rule_trips: 0,
        plan_contract_initialized: 0,
        plan_contract_updated: 0,
        plan_mutations_blocked: 0,
        tool_batches: 0,
        tool_calls_emitted: 0,
        completion_checks_fired: 0,
        test_file_mutations: 0,
        best_of_attempts: 0,
        best_of_selections: 0,
    }
}

/// The counts of two sessions together: they add up, but for the size of the
/// system prompt, of which the larger one counts.
pub open spec fn combined(a: TelemetryTotals, b: TelemetryTotals) -> TelemetryTotals {
    TelemetryTotals {
        runs: sum64(a.runs, b.runs),
        compaction_fired: sum64(a.compaction_fired, b.compaction_fired),
        historia_writes: sum64(a.historia_writes, b.historia_writes),
        historia_hits: sum64(a.historia_hits, b.historia_hits),
        system_prompt_tokens: larger(a.system_prompt_tokens, b.system_prompt_tokens),
        hook_pre_runs: sum64(a.hook_pre_runs, b.hook_pre_runs),
        hook_pre_denies: sum64(a.hook_pre_denies, b.hook_pre_denies),
        hook_post_runs: sum64(a.hook_post_runs, b.hook_post_runs),
        hook_post_failures: sum64(a.hook_post_failures, b.hook_post_failures),
        hook_stop_runs: sum64(a.hook_stop_runs, b.hook_stop_runs),
        hook_stop_retries: sum64(a.hook_stop_retries, b.hook_stop_retries),
        hook_stop_exhausted: sum64(a.hook_stop_exhausted, b.hook_stop_exhausted),
        tusk_runs: sum64(a.tusk_runs, b.tusk_runs),
        tusk_edits: sum64(a.tusk_edits, b.tusk_edits),
        tusk_withheld: sum64(a.tusk_withheld, b.tusk_withheld),
        oracle_runs: sum64(a.oracle_runs, b.oracle_runs),
        oracle_failures: sum64(a.oracle_failures, b.oracle_failures),
        oracle_retries: sum64(a.oracle_retries, b.oracle_retries),
        oracle_rollbacks: sum64(a.oracle_rollbacks, b.oracle_rollbacks),
        oracle_exhausted: sum64(a.oracle_exhausted, b.oracle_exhausted),
        ask_user_rounds: sum64(a.ask_user_rounds, b.ask_user_rounds),
        ask_user_questions: sum64(a.ask_user_questions, b.ask_user_questions),
        verify_tool_runs: sum64(a.verify_tool_runs, b.verify_tool_runs),
        spill_writes: sum64(a.spill_writes, b.spill_writes),
        read_outlines: sum64(a.read_outlines, b.read_outlines),
        patch_applies: sum64(a.patch_applies, b.patch_applies),
        patch_rejects: sum64(a.patch_rejects, b.patch_rejects),
        stream_rule_trips: sum64(a.stream_rule_trips, b.stream_rule_trips),
        plan_contract_initialized: sum64(a.plan_contract_initialized, b.plan_contract_initialized),
        plan_contract_updated: sum64(a.plan_contract_updated, b.plan_contract_updated),
        plan_mutations_blocked: sum64(a.plan_mutations_blocked, b.plan_mutations_blocked),
        tool_batches: sum64(a.tool_batches, b.tool_batches),
        tool_calls_emitted: sum64(a.tool_calls_emitted, b.tool_calls_emitted),
        completion_checks_fired: sum64(a.completion_checks_fired, b.completion_checks_fired),
        test_file_mutations: sum64(a.test_file_mutations, b.test_file_mutations),
        best_of_attempts: sum64(a.best_of_attempts, b.best_of_attempts),
        best_of_selections: sum64(a.best_of_selections, b.best_of_selections),
    }
}

impl TelemetryTotals {
    /// Nothing was counted.
    pub fn none() -> (r: TelemetryTotals)
        ensures
            r == no_counts(),
    {
        TelemetryTotals {
        runs: 0,
        compaction_fired: 0,
        historia_writes: 0,
        historia_hits: 0,
        system_prompt_tokens: 0,
        hook_pre_runs: 0,
        hook_pre_denies: 0,
        hook_post_runs: 0,
        hook_post_failures: 0,
        hook_stop_runs: 0,
        hook_stop_retries: 0,
        hook_stop_exhausted: 0,
        tusk_runs: 0,
        tusk_edits: 0,
        tusk_withheld: 0,
        oracle_runs: 0,
        oracle_failures: 0,
        oracle_retries: 0,
        oracle_rollbacks: 0,
        oracle_exhausted: 0,
        ask_user_rounds: 0,
        ask_user_questions: 0,
        verify_tool_runs: 0,
        spill_writes: 0,
        read_outlines: 0,
        patch_applies: 0,
        patch_rejects: 0,
        stream_rule_trips: 0,
        plan_contract_initialized: 0,
        plan_contract_updated: 0,
        plan_mutations_blocked: 0,
        tool_batches: 0,
        tool_calls_emitted: 0,
        completion_checks_fired: 0,
        test_file_mutations: 0,
        best_of_attempts: 0,
        best_of_selections: 0,
        }
    }
}

fn combine(a: &TelemetryTotals, b: &TelemetryTotals) -> (r: TelemetryTotals)
    ensures
        r == combined(*a, *b),
{
    TelemetryTotals {
        runs: plus64(a.runs, b.runs),
        compaction_fired: plus64(a.compaction_fired, b.compaction_fired),
        historia_writes: plus64(a.historia_writes, b.historia_writes),
        historia_hits: plus64(a.historia_hits, b.historia_hits),
        system_prompt_tokens: greater(a.system_prompt_tokens, b.system_prompt_tokens),
        hook_pre_runs: plus64(a.hook_pre_runs, b.hook_pre_runs),
        hook_pre_denies: plus64(a.hook_pre_denies, b.hook_pre_denies),
        hook_post_runs: plus64(a.hook_post_runs, b.hook_post_runs),
        hook_post_failures: plus64(a.hook_post_failures, b.hook_post_failures),
        hook_stop_runs: plus64(a.hook_stop_runs, b.hook_stop_runs),
        hook_stop_retries: plus64(a.hook_stop_retries, b.hook_stop_retries),
        hook_stop_exhausted: plus64(a.hook_stop_exhausted, b.hook_stop_exhausted),
        tusk_runs: plus64(a.tusk_runs, b.tusk_runs),
        tusk_edits: plus64(a.tusk_edits, b.tusk_edits),
        tusk_withheld: plus64(a.tusk_withheld, b.tusk_withheld),
        oracle_runs: plus64(a.oracle_runs, b.oracle_runs),
        oracle_failures: plus64(a.oracle_failures, b.oracle_failures),
        oracle_retries: plus64(a.oracle_retries, b.oracle_retries),
        oracle_rollbacks: plus64(a.oracle_rollbacks, b.oracle_rollbacks),
        oracle_exhausted: plus64(a.oracle_exhausted, b.oracle_exhausted),
        ask_user_rounds: plus64(a.ask_user_rounds, b.ask_user_rounds),
        ask_user_questions: plus64(a.ask_user_questions, b.ask_user_questions),
        verify_tool_runs: plus64(a.verify_tool_runs, b.verify_tool_runs),
        spill_writes: plus64(a.spill_writes, b.spill_writes),
        read_outlines: plus64(a.read_outlines, b.read_outlines),
        patch_applies: plus64(a.patch_applies, b.patch_applies),
        patch_rejects: plus64(a.patch_rejects, b.patch_rejects),
        stream_rule_trips: plus64(a.stream_rule_trips, b.stream_rule_trips),
        plan_contract_initialized: plus64(a.plan_contract_initialized, b.plan_contract_initialized),
        plan_contract_updated: plus64(a.plan_contract_updated, b.plan_contract_updated),
        plan_mutations_blocked: plus64(a.plan_mutations_blocked, b.plan_mutations_blocked),
        tool_batches: plus64(a.tool_batches, b.tool_batches),
        tool_calls_emitted: plus64(a.tool_calls_emitted, b.tool_calls_emitted),
        completion_checks_fired: plus64(a.completion_checks_fired, b.completion_checks_fired),
        test_file_mutations: plus64(a.test_file_mutations, b.test_file_mutations),
        best_of_attempts: plus64(a.best_of_attempts, b.best_of_attempts),
        best_of_selections: plus64(a.best_of_selections, b.best_of_selections),
    }
}

/// What is known of a tool.
#[derive(Clone, Copy, Debug, PartialEq, Eq, Structural)]
pub struct ToolStats {
    pub calls: usize,
    pub sessions: usize,
    pub errors: usize,
    pub result_tokens: u64,
}

impl View for ToolStats {
    type V = ToolStats;

    open spec fn view(&self) -> ToolStats {
        *self
    }
}

/// Nothing is known of a tool.
pub open spec fn unused_tool() -> ToolStats {
    ToolStats { calls: 0, sessions: 0, errors: 0, result_tokens: 0 }
}

/// What a session tells: its calls by tool, with the errors and the characters
/// of the results, and what its runs counted.
#[derive(Debug)]
pub struct AuditSummary {
    pub user_turns: usize,
    pub tool_calls: usize,
    pub compactions: usize,
    pub peak_context_tokens: u32,
    pub tools: Vec<(String, usize)>,
    pub errors_by_tool: Vec<(String, usize)>,
    pub result_chars_by_tool: Vec<(String, u64)>,
    pub telemetry: TelemetryTotals,
}

/// The errors of a tool in a session.
pub open spec fn errors_of(s: AuditSummary, tool: Seq<char>) -> usize {
    match count_under(s.errors_by_tool@, tool) {
        Some(n) => n,
        None => 0,
    }
}

/// The first count under a name.
pub open spec fn count_under(rows: Seq<(String, usize)>, name: Seq<char>) -> Option<usize>
    decreases rows.len(),
{
    if rows.len() == 0 {
        None
    } else if rows[0].0@ == name {
        Some(rows[0].1)
    } else {
        count_under(rows.drop_first(), name)
    }
}

/// The first amount under a name.
pub open spec fn amount_under(rows: Seq<(String, u64)>, name: Seq<char>) -> Option<u64>
    decreases rows.len(),
{
    if rows.len() == 0 {
        None
    } else if rows[0].0@ == name {
        Some(rows[0].1)
    } else {
        amount_under(rows.drop_first(), name)
    }
}

/// The tokens of the results of a tool in a session: a quarter of their
/// characters.
pub open spec fn result_tokens_of(s: AuditSummary, tool: Seq<char>) -> u64 {
    match amount_under(s.result_chars_by_tool@, tool) {
        Some(n) => n / 4,
        None => 0,
    }
}

impl AuditSummary {
    /// Computes [`result_tokens_of`].
    pub fn result_tokens(&self, tool: &str) -> (r: u64)
        ensures
            r == result_tokens_of(*self, tool@),
    {
        let rows = &self.result_chars_by_tool;
        let mut i: usize = 0;
        assert(rows@.skip(0) =~= rows@);
        while i < rows.len()
            invariant
                i <= rows@.len(),
                rows@ == self.result_chars_by_tool@,
                amount_under(rows@, tool@) == amount_under(rows@.skip(i as int), tool@),
            decreases rows@.len() - i,
        {
            assert(rows@.skip(i as int)[0] == rows@[i as int]);
            if same(rows[i].0.as_str(), tool) {
                return rows[i].1 / 4;
            }
            assert(rows@.skip(i as int).drop_first() =~= rows@.skip(i + 1));
            i += 1;
        }
        0
    }

    fn errors(&self, tool: &str) -> (r: usize)
        ensures
            r == errors_of(*self, tool@),
    {
        let rows = &self.errors_by_tool;
        let mut i: usize = 0;
        assert(rows@.skip(0) =~= rows@);
        while i < rows.len()
            invariant
                i <= rows@.len(),
                rows@ == self.errors_by_tool@,
                count_under(rows@, tool@) == count_under(rows@.skip(i as int), tool@),
            decreases rows@.len() - i,
        {
            assert(rows@.skip(i as int)[0] == rows@[i as int]);
            if same(rows[i].0.as_str(), tool) {
                return rows[i].1;
            }
            assert(rows@.skip(i as int).drop_first() =~= rows@.skip(i + 1));
            i += 1;
        }
        0
    }
}

// ------------------------------------------------------------ groups

/// Some sessions taken together.
#[derive(Debug)]
pub struct Group {
    pub sessions: usize,
    pub tool_calls: usize,
    pub compactions: usize,
    /// The sessions that the user came back to after the first prompt.
    pub multi_turn_sessions: usize,
    /// By the name of the tool, in the order of the names.
    pub tools: Vec<(String, ToolStats)>,
    pub telemetry: TelemetryTotals,
}

/// What a [`Group`] stands for.
pub struct GroupV {
    pub sessions: usize,
    pub tool_calls: usize,
    pub compactions: usize,
    pub multi_turn_sessions: usize,
    pub tools: Seq<(Seq<char>, ToolStats)>,
    pub telemetry: TelemetryTotals,
}

impl View for Group {
    type V = GroupV;

    open spec fn view(&self) -> GroupV {
        GroupV {
            sessions: self.sessions,
            tool_calls: self.tool_calls,
            compactions: self.compactions,
            multi_turn_sessions: self.multi_turn_sessions,
            tools: row_views(self.tools@),
            telemetry: self.telemetry,
        }
    }
}

/// No session yet.
pub open spec fn no_sessions() -> GroupV {
    GroupV {
        sessions: 0,
        tool_calls: 0,
        compactions: 0,
        multi_turn_sessions: 0,
        tools: Seq::empty(),
        telemetry: no_counts(),
    }
}

/// What is known of a tool, with what one more session tells of it.
pub open spec fn tool_grown(known: Option<ToolStats>, calls: usize, errors: usize, tokens: u64) -> ToolStats {
    let e = match known {
        Some(e) => e,
        None => unused_tool(),
    };
    ToolStats {
        calls: sum_size(e.calls, calls),
        sessions: sum_size(e.sessions, 1),
        errors: sum_size(e.errors, errors),
        result_tokens: sum64(e.result_tokens, tokens),
    }
}

/// The tools, with what a session tells of the first `n` of its own.
pub open spec fn tools_grown(
    rows: Seq<(Seq<char>, ToolStats)>,
    s: AuditSummary,
    n: nat,
) -> Seq<(Seq<char>, ToolStats)>
    decreases n,
{
    if n == 0 {
        rows
    } else {
        let before = tools_grown(rows, s, (n - 1) as nat);
        let name = s.tools@[n - 1].0@;
        with_row(
            before,
            name,
            tool_grown(
                row_with(before, name),
                s.tools@[n - 1].1,
                errors_of(s, name),
                result_tokens_of(s, name),
            ),
        )
    }
}

/// A group with one more session.
pub open spec fn absorbed(g: GroupV, s: AuditSummary) -> GroupV {
    GroupV {
        sessions: sum_size(g.sessions, 1),
        tool_calls: sum_size(g.tool_calls, s.tool_calls),
        compactions: sum_size(g.compactions, s.compactions),
        multi_turn_sessions: sum_size(
            g.multi_turn_sessions,
            if s.user_turns > 1 {
                1
            } else {
                0
            },
        ),
        tools: tools_grown(g.tools, s, s.tools@.len()),
        telemetry: combined(g.telemetry, s.telemetry),
    }
}

impl Group {
    /// No session yet.
    pub fn none() -> (g: Group)
        ensures
            g@ == no_sessions(),
    {
        let tools: Vec<(String, ToolStats)> = Vec::new();
        assert(row_views(tools@) =~= Seq::empty());
        Group {
            sessions: 0,
            tool_calls: 0,
            compactions: 0,
            multi_turn_sessions: 0,
            tools,
            telemetry: TelemetryTotals::none(),
        }
    }

    /// Takes one more session in; see [`absorbed`].
    pub fn absorb(&mut self, s: &AuditSummary)
        ensures
            final(self)@ == absorbed(old(self)@, *s),
    {
        let ghost g0 = self@;
        self.sessions = plus(self.sessions, 1);
        self.tool_calls = plus(self.tool_calls, s.tool_calls);
        self.compactions = plus(self.compactions, s.compactions);
        self.multi_turn_sessions = plus(
            self.multi_turn_sessions,
            if s.user_turns > 1 {
                1
            } else {
                0
            },
        );
        self.telemetry = combine(&self.telemetry, &s.telemetry);
        let ghost g1 = self@;
        let mut i: usize = 0;
        while i < s.tools.len()
            invariant
                i <= s.tools@.len(),
                self@ == (GroupV { tools: tools_grown(g0.tools, *s, i as nat), ..g1 }),
            decreases s.tools@.len() - i,
        {
            let name = s.tools[i].0.as_str();
            let known = match get_row(&self.tools, name) {
                Some(e) => *e,
                None => ToolStats { calls: 0, sessions: 0, errors: 0, result_tokens: 0 },
            };
            let grown = ToolStats {
                calls: plus(known.calls, s.tools[i].1),
                sessions: plus(known.sessions, 1),
                errors: plus(known.errors, s.errors(name)),
                result_tokens: plus64(known.result_tokens, s.result_tokens(name)),
            };
            put_row(&mut self.tools, name.to_owned(), grown);
            i += 1;
        }
    }
}

// ------------------------------------------------------------ ranking

/// A tool ranks above another one: it was called more often, or as often and its
/// name comes first.
pub open spec fn outranks(a: (Seq<char>, ToolStats), b: (Seq<char>, ToolStats)) -> bool {
    a.1.calls > b.1.calls || (a.1.calls == b.1.calls && precedes(a.0, b.0))
}

/// The rows with one more, behind those that it does not outrank.
pub open spec fn ranked_in(rows: Seq<(Seq<char>, ToolStats)>, row: (Seq<char>, ToolStats)) -> Seq<
    (Seq<char>, ToolStats),
>
    decreases rows.len(),
{
    if rows.len() == 0 {
        seq![row]
    } else if outranks(row, rows.last()) {
        ranked_in(rows.drop_last(), row).push(rows.last())
    } else {
        rows.push(row)
    }
}

/// The tools by rank: those that were called most come first.
pub open spec fn ranking(rows: Seq<(Seq<char>, ToolStats)>) -> Seq<(Seq<char>, ToolStats)>
    decreases rows.len(),
{
    if rows.len() == 0 {
        Seq::empty()
    } else {
        ranked_in(ranking(rows.drop_last()), rows.last())
    }
}

fn rank_in(rows: &mut Vec<(String, ToolStats)>, name: String, tool: ToolStats)
    ensures
        row_views(final(rows)@) == ranked_in(row_views(old(rows)@), (name@, tool)),
        final(rows)@.len() == old(rows)@.len() + 1,
{
    let ghost rs = row_views(rows@);
    let ghost row = (name@, tool);
    let mut p: usize = rows.len();
    assert(rs.take(p as int) =~= rs);
    assert(ranked_in(rs, row) =~= ranked_in(rs.take(p as int), row) + rs.skip(p as int));
    while p > 0 && (tool.calls > rows[p - 1].1.calls || (tool.calls == rows[p - 1].1.calls
        && comes_before(name.as_str(), rows[p - 1].0.as_str())))
        invariant
            p <= rows@.len(),
            rs == row_views(rows@),
            row == (name@, tool),
            ranked_in(rs, row) == ranked_in(rs.take(p as int), row) + rs.skip(p as int),
        decreases p,
    {
        assert(rs[p - 1] == (rows@[p - 1].0@, rows@[p - 1].1));
        assert(rs.take(p as int).drop_last() =~= rs.take(p - 1));
        assert(rs.take(p as int).last() == rs[p - 1]);
        assert(ranked_in(rs.take(p - 1), row).push(rs[p - 1]) + rs.skip(p as int) =~= ranked_in(
            rs.take(p - 1),
            row,
        ) + rs.skip(p - 1));
        p -= 1;
    }
    assert(p > 0 ==> rs[p - 1] == (rows@[p - 1].0@, rows@[p - 1].1));
    assert(p > 0 ==> rs.take(p as int).last() == rs[p - 1]);
    assert(ranked_in(rs.take(p as int), row) =~= rs.take(p as int).push(row));
    rows.insert(p, (name, tool));
    assert(row_views(rows@) =~= rs.insert(p as int, row));
    assert(rs.insert(p as int, row) =~= rs.take(p as int).push(row) + rs.skip(p as int));
}

impl Group {
    /// Ranks the tools; see [`ranking`].
    pub fn ranked(&self) -> (r: Vec<(String, ToolStats)>)
        ensures
            row_views(r@) == ranking(self@.tools),
            r@.len() == self.tools@.len(),
    {
        let ghost rs = self@.tools;
        let mut out: Vec<(String, ToolStats)> = Vec::new();
        let mut i: usize = 0;
        assert(rs.take(0) =~= Seq::empty());
        assert(row_views(out@) =~= Seq::empty());
        while i < self.tools.len()
            invariant
                i <= self.tools@.len(),
                rs == row_views(self.tools@),
                row_views(out@) == ranking(rs.take(i as int)),
                out@.len() == i,
            decreases self.tools@.len() - i,
        {
            assert(rs.take(i + 1).drop_last() =~= rs.take(i as int));
            assert(rs.take(i + 1).last() == (self.tools@[i as int].0@, self.tools@[i as int].1));
            rank_in(&mut out, self.tools[i].0.clone(), self.tools[i].1);
            i += 1;
        }
        assert(rs.take(i as int) =~= rs);
        out
    }
}

// ------------------------------------------------------------ the sessions

/// Whether the sessions of a project are taken: all are, unless only those are
/// wanted whose name holds a text.
pub fn takes_project(slug: &str, wanted: Option<&str>) -> (b: bool)
    ensures
        b == (match setting_view(wanted) {
            Some(p) => holds(slug@, p),
            None => true,
        }),
{
    match wanted {
        Some(p) => contains(slug, p),
        None => true,
    }
}

/// Whether a file holds a session, by its name.
pub fn is_session_file(name: &str) -> (b: bool)
    ensures
        b == (extension_of(name@) == "jsonl"@),
{
    same(extension(name).as_str(), "jsonl")
}

/// What is said where no session was ever kept.
pub fn no_history(root: &str) -> (r: String)
    ensures
        r@ == "no local session history at "@ + root@,
{
    cat2("no local session history at ", root)
}

// ------------------------------------------------------------ the whole

/// What all the sessions say.
#[derive(Debug)]
pub struct Stats {
    pub sessions_scanned: usize,
    pub sessions_with_tool_calls: usize,
    pub projects: usize,
    pub overall: Group,
    /// By the bucket of the largest context, in the order of the labels.
    pub by_context: Vec<(String, Group)>,
    /// The tools that no session ever called.
    pub never_called: Vec<String>,
}

/// All the sessions taken together.
pub open spec fn overall_of(s: Seq<AuditSummary>) -> GroupV
    decreases s.len(),
{
    if s.len() == 0 {
        no_sessions()
    } else {
        absorbed(overall_of(s.drop_last()), s.last())
    }
}

/// The sessions by their bucket.
pub open spec fn contexts_of(s: Seq<AuditSummary>) -> Seq<(Seq<char>, GroupV)>
    decreases s.len(),
{
    if s.len() == 0 {
        Seq::empty()
    } else {
        let rows = contexts_of(s.drop_last());
        let label = bucket(s.last().peak_context_tokens as nat);
        with_row(
            rows,
            label,
            absorbed(
                match row_with(rows, label) {
                    Some(g) => g,
                    None => no_sessions(),
                },
                s.last(),
            ),
        )
    }
}

/// How many of the sessions called a tool.
pub open spec fn with_calls(s: Seq<AuditSummary>) -> nat
    decreases s.len(),
{
    if s.len() == 0 {
        0
    } else {
        with_calls(s.drop_last()) + (if s.last().tool_calls > 0 {
            1nat
        } else {
            0
        })
    }
}

/// The tools of a list that are not among the rows.
pub open spec fn not_among(list: Seq<Seq<char>>, rows: Seq<(Seq<char>, ToolStats)>) -> Seq<Seq<char>>
    decreases list.len(),
{
    if list.len() == 0 {
        Seq::empty()
    } else {
        let before = not_among(list.drop_last(), rows);
        if row_with(rows, list.last()) is None {
            before.push(list.last())
        } else {
            before
        }
    }
}

proof fn lemma_contexts_in_order(s: Seq<AuditSummary>)
    ensures
        in_key_order(contexts_of(s)),
    decreases s.len(),
{
    if s.len() > 0 {
        let rows = contexts_of(s.drop_last());
        lemma_contexts_in_order(s.drop_last());
        let label = bucket(s.last().peak_context_tokens as nat);
        let g = absorbed(
            match row_with(rows, label) {
                Some(g) => g,
                None => no_sessions(),
            },
            s.last(),
        );
        law_row_is_put(rows, label, g, label);
    }
}

fn group_by_context(summaries: &Vec<AuditSummary>) -> (r: Vec<(String, Group)>)
    ensures
        row_views(r@) == contexts_of(summaries@),
{
    let ghost ss = summaries@;
    let mut out: Vec<(String, Group)> = Vec::new();
    let mut i: usize = 0;
    assert(ss.take(0) =~= Seq::empty());
    assert(row_views(out@) =~= Seq::empty());
    while i < summaries.len()
        invariant
            i <= summaries@.len(),
            ss == summaries@,
            row_views(out@) == contexts_of(ss.take(i as int)),
        decreases summaries@.len() - i,
    {
        assert(ss.take(i + 1).drop_last() =~= ss.take(i as int));
        let label = bucket_of(summaries[i].peak_context_tokens);
        let ghost rows = row_views(out@);
        proof {
            lemma_contexts_in_order(ss.take(i as int));
        }
        let mut g = match take_row(&mut out, label) {
            Some(g) => g,
            None => Group::none(),
        };
        g.absorb(&summaries[i]);
        proof {
            if row_with(rows, label@) is Some {
                lemma_taken_and_put(rows, label@, g@);
            }
        }
        put_row(&mut out, label.to_owned(), g);
        i += 1;
    }
    assert(ss.take(i as int) =~= ss);
    out
}

fn never_among(registry: &Vec<String>, tools: &Vec<(String, ToolStats)>) -> (r: Vec<String>)
    ensures
        texts(r@) == not_among(texts(registry@), row_views(tools@)),
{
    let ghost names = texts(registry@);
    let mut out: Vec<String> = Vec::new();
    let mut i: usize = 0;
    assert(names.take(0) =~= Seq::empty());
    assert(texts(out@) =~= Seq::empty());
    while i < registry.len()
        invariant
            i <= registry@.len(),
            names == texts(registry@),
            texts(out@) == not_among(names.take(i as int), row_views(tools@)),
        decreases registry@.len() - i,
    {
        assert(names.take(i + 1).drop_last() =~= names.take(i as int));
        assert(names.take(i + 1).last() == registry@[i as int]@);
        if get_row(tools, registry[i].as_str()).is_none() {
            let ghost before = texts(out@);
            out.push(registry[i].clone());
            assert(texts(out@) =~= before.push(registry@[i as int]@));
        }
        i += 1;
    }
    assert(names.take(i as int) =~= names);
    out
}

/// Folds the sessions of some projects into one picture; `registry` lists the
/// tools that there are.
pub fn run_stats(summaries: &Vec<AuditSummary>, projects: usize, registry: &Vec<String>) -> (r: Stats)
    ensures
        r.sessions_scanned == summaries@.len(),
        r.sessions_with_tool_calls == with_calls(summaries@),
        r.projects == projects,
        r.overall@ == overall_of(summaries@),
        row_views(r.by_context@) == contexts_of(summaries@),
        texts(r.never_called@) == not_among(texts(registry@), overall_of(summaries@).tools),
{
    let ghost ss = summaries@;
    let mut overall = Group::none();
    let mut used: usize = 0;
    let mut i: usize = 0;
    assert(ss.take(0) =~= Seq::empty());
    while i < summaries.len()
        invariant
            i <= summaries@.len(),
            ss == summaries@,
            used <= i,
            used == with_calls(ss.take(i as int)),
            overall@ == overall_of(ss.take(i as int)),
        decreases summaries@.len() - i,
    {
        assert(ss.take(i + 1).drop_last() =~= ss.take(i as int));
        if summaries[i].tool_calls > 0 {
            used += 1;
        }
        overall.absorb(&summaries[i]);
        i += 1;
    }
    assert(ss.take(i as int) =~= ss);
    let by_context = group_by_context(summaries);
    let never_called = never_among(registry, &overall.tools);
    Stats {
        sessions_scanned: summaries.len(),
        sessions_with_tool_calls: used,
        projects,
        overall,
        by_context,
        never_called,
    }
}

// ------------------------------------------------------------ the report

/// The counts above the tables.
#[verifier::opaque]
pub open spec fn report_head(s: Stats) -> Seq<char> {
    let t = s.overall.telemetry;
    "# Sir Bone Tool Stats\n\n"@ + "- Sessions: "@ + decimal(s.sessions_scanned as nat) + " scanned, "@ + decimal(s.sessions_with_tool_calls as nat) + " with tool calls, across "@ + decimal(s.projects as nat) + " project(s)\n"@ + "- Tool calls: "@ + decimal(s.overall.tool_calls as nat) + "\n"@ + "- Compactions: "@ + decimal(s.overall.compactions as nat) + "\n"@ + "- Historia: "@ + decimal(t.historia_hits as nat) + " successful structured queries; "@ + decimal(t.historia_writes as nat) + " legacy writes\n"@ + "- Verification: pre "@ + decimal(t.hook_pre_runs as nat) + " runs/"@ + decimal(t.hook_pre_denies as nat) + " denies, post "@ + decimal(t.hook_post_runs as nat) + " runs/"@ + decimal(t.hook_post_failures as nat) + " failures, stop "@ + decimal(t.hook_stop_runs as nat) + " runs/"@ + decimal(t.hook_stop_retries as nat) + " retries/"@ + decimal(t.hook_stop_exhausted as nat) + " exhausted, oracle "@ + decimal(t.oracle_runs as nat) + " runs/"@ + decimal(t.oracle_failures as nat) + " failures/"@ + decimal(t.oracle_retries as nat) + " retries/"@ + decimal(t.oracle_rollbacks as nat) + " rollbacks/"@ + decimal(t.oracle_exhausted as nat) + " exhausted, verify "@ + decimal(t.verify_tool_runs as nat) + " runs, tusk "@ + decimal(t.tusk_runs as nat) + " runs/"@ + decimal(t.tusk_edits as nat) + " edits/"@ + decimal(t.tusk_withheld as nat) + " withheld\n"@ + "- Ask user: "@ + decimal(t.ask_user_rounds as nat) + " rounds, "@ + decimal(t.ask_user_questions as nat) + " questions\n"@ + "- Context tools: "@ + decimal(t.spill_writes as nat) + " spills, "@ + decimal(t.read_outlines as nat) + " read outlines, "@ + decimal(t.patch_applies as nat) + " patches ("@ + decimal(t.patch_rejects as nat) + " rejected), "@ + decimal(t.stream_rule_trips as nat) + " stream-rule trips\n"@ + "- Sessions the user re-prompted: "@ + decimal(s.overall.multi_turn_sessions as nat) + "/"@ + decimal(s.sessions_with_tool_calls as nat) + "\n"@
}

/// The row of a tool; `share` is the share of the calls that it has, in percent.
pub open spec fn tool_row(row: (Seq<char>, ToolStats), share: Seq<char>, used: nat) -> Seq<char> {
    "| `"@ + row.0 + "` | "@ + decimal(row.1.calls as nat) + " | "@ + share + "% | "@ + decimal(
        row.1.sessions as nat,
    ) + "/"@ + decimal(used) + " | "@ + decimal(row.1.errors as nat) + " | "@ + decimal(
        row.1.result_tokens as nat,
    ) + " |\n"@
}

/// The rows of the first `n` tools.
pub open spec fn tool_rows(
    rows: Seq<(Seq<char>, ToolStats)>,
    shares: Seq<Seq<char>>,
    used: nat,
    n: nat,
) -> Seq<char>
    decreases n,
{
    if n == 0 {
        Seq::empty()
    } else {
        tool_rows(rows, shares, used, (n - 1) as nat) + tool_row(rows[n - 1], shares[n - 1], used)
    }
}

/// At most four tools, by rank, with their calls.
pub open spec fn top_tools(rows: Seq<(Seq<char>, ToolStats)>) -> Seq<Seq<char>> {
    let n = if ranking(rows).len() < 4 {
        ranking(rows).len()
    } else {
        4
    };
    ranking(rows).take(n as int).map_values(
        |r: (Seq<char>, ToolStats)| r.0 + ":"@ + decimal(r.1.calls as nat),
    )
}

/// The row of a bucket; `rate` is the calls per session.
pub open spec fn context_row(label: Seq<char>, g: GroupV, rate: Seq<char>) -> Seq<char> {
    "| "@ + label + " | "@ + decimal(g.sessions as nat) + " | "@ + rate + " | "@ + decimal(
        g.compactions as nat,
    ) + " | "@ + joined(top_tools(g.tools), " "@) + " |\n"@
}

/// The rows of the first `n` buckets, of those that hold a session. `rates` gives
/// the calls per session of each of the groups, in the order of the groups.
pub open spec fn context_rows(
    groups: Seq<(Seq<char>, GroupV)>,
    rates: Seq<Seq<char>>,
    n: nat,
) -> Seq<char>
    decreases n,
{
    if n == 0 {
        Seq::empty()
    } else {
        let label = bucket_labels()[n - 1];
        context_rows(groups, rates, (n - 1) as nat) + (match row_with(groups, label) {
            Some(g) => context_row(label, g, rates[spot(groups, label)]),
            None => Seq::empty(),
        })
    }
}

/// What stands above the rows of the tools.
pub const TOOLS_HEADER: &'static str = "\n## Tools\n\n\
| Tool | Calls | Share | Sessions | Errors | Result tokens |\n\
|---|---:|---:|---:|---:|---:|\n";

/// What stands above the rows of the buckets.
pub const CONTEXT_HEADER: &'static str = "\n## By peak context\n\n\
| Peak context | Sessions | Calls/session | Compactions | Top tools |\n\
|---|---:|---:|---:|---|\n";

/// The report.
pub open spec fn report(s: Stats, shares: Seq<Seq<char>>, rates: Seq<Seq<char>>) -> Seq<char> {
    report_head(s) + (if s.overall.tool_calls == 0 {
        "\nNo tool calls recorded yet.\n"@
    } else {
        TOOLS_HEADER@ + tool_rows(
            ranking(s.overall@.tools),
            shares,
            s.sessions_with_tool_calls as nat,
            s.overall.tools@.len(),
        ) + CONTEXT_HEADER@ + context_rows(row_views(s.by_context@), rates, 4) + (
        if s.never_called@.len() > 0 {
            "\nNever called on real projects: "@ + joined(
                texts(s.never_called@).map_values(|t: Seq<char>| "`"@ + t + "`"@),
                ", "@,
            ) + "\n"@
        } else {
            Seq::empty()
        })
    })
}

fn write_head(s: &Stats) -> (r: String)
    ensures
        r@ == report_head(*s),
{
    proof {
        reveal(report_head);
    }
    let t = &s.overall.telemetry;
    let mut out = "# Sir Bone Tool Stats\n\n".to_owned();
    put(&mut out, "- Sessions: ");
    put_number(&mut out, s.sessions_scanned as u64);
    put(&mut out, " scanned, ");
    put_number(&mut out, s.sessions_with_tool_calls as u64);
    put(&mut out, " with tool calls, across ");
    put_number(&mut out, s.projects as u64);
    put(&mut out, " project(s)\n");
    put(&mut out, "- Tool calls: ");
    put_number(&mut out, s.overall.tool_calls as u64);
    put(&mut out, "\n");
    put(&mut out, "- Compactions: ");
    put_number(&mut out, s.overall.compactions as u64);
    put(&mut out, "\n");
    put(&mut out, "- Historia: ");
    put_number(&mut out, t.historia_hits);
    put(&mut out, " successful structured queries; ");
    put_number(&mut out, t.historia_writes);
    put(&mut out, " legacy writes\n");
    put(&mut out, "- Verification: pre ");
    put_number(&mut out, t.hook_pre_runs);
    put(&mut out, " runs/");
    put_number(&mut out, t.hook_pre_denies);
    put(&mut out, " denies, post ");
    put_number(&mut out, t.hook_post_runs);
    put(&mut out, " runs/");
    put_number(&mut out, t.hook_post_failures);
    put(&mut out, " failures, stop ");
    put_number(&mut out, t.hook_stop_runs);
    put(&mut out, " runs/");
    put_number(&mut out, t.hook_stop_retries);
    put(&mut out, " retries/");
    put_number(&mut out, t.hook_stop_exhausted);
    put(&mut out, " exhausted, oracle ");
    put_number(&mut out, t.oracle_runs);
    put(&mut out, " runs/");
    put_number(&mut out, t.oracle_failures);
    put(&mut out, " failures/");
    put_number(&mut out, t.oracle_retries);
    put(&mut out, " retries/");
    put_number(&mut out, t.oracle_rollbacks);
    put(&mut out, " rollbacks/");
    put_number(&mut out, t.oracle_exhausted);
    put(&mut out, " exhausted, verify ");
    put_number(&mut out, t.verify_tool_runs);
    put(&mut out, " runs, tusk ");
    put_number(&mut out, t.tusk_runs);
    put(&mut out, " runs/");
    put_number(&mut out, t.tusk_edits);
    put(&mut out, " edits/");
    put_number(&mut out, t.tusk_withheld);
    put(&mut out, " withheld\n");
    put(&mut out, "- Ask user: ");
    put_number(&mut out, t.ask_user_rounds);
    put(&mut out, " rounds, ");
    put_number(&mut out, t.ask_user_questions);
    put(&mut out, " questions\n");
    put(&mut out, "- Context tools: ");
    put_number(&mut out, t.spill_writes);
    put(&mut out, " spills, ");
    put_number(&mut out, t.read_outlines);
    put(&mut out, " read outlines, ");
    put_number(&mut out, t.patch_applies);
    put(&mut out, " patches (");
    put_number(&mut out, t.patch_rejects);
    put(&mut out, " rejected), ");
    put_number(&mut out, t.stream_rule_trips);
    put(&mut out, " stream-rule trips\n");
    put(&mut out, "- Sessions the user re-prompted: ");
    put_number(&mut out, s.overall.multi_turn_sessions as u64);
    put(&mut out, "/");
    put_number(&mut out, s.sessions_with_tool_calls as u64);
    put(&mut out, "\n");
    out
}

fn write_tool_row(name: &str, t: &ToolStats, share: &str, used: usize) -> (r: String)
    ensures
        r@ == tool_row((name@, *t), share@, used as nat),
{
    let mut out = "| `".to_owned();
    put(&mut out, name);
    put(&mut out, "` | ");
    put_number(&mut out, t.calls as u64);
    put(&mut out, " | ");
    put(&mut out, share);
    put(&mut out, "% | ");
    put_number(&mut out, t.sessions as u64);
    put(&mut out, "/");
    put_number(&mut out, used as u64);
    put(&mut out, " | ");
    put_number(&mut out, t.errors as u64);
    put(&mut out, " | ");
    put_number(&mut out, t.result_tokens);
    put(&mut out, " |\n");
    out
}

fn list_top(g: &Group) -> (r: Vec<String>)
    ensures
        texts(r@) == top_tools(g@.tools),
{
    let rows = g.ranked();
    let ghost rk = ranking(g@.tools);
    let n: usize = if rows.len() < 4 {
        rows.len()
    } else {
        4
    };
    let ghost all = top_tools(g@.tools);
    assert(rk.len() == rows@.len());
    let mut out: Vec<String> = Vec::new();
    let mut i: usize = 0;
    assert(texts(out@) =~= all.take(0));
    while i < n
        invariant
            i <= n <= rows@.len(),
            row_views(rows@) == rk,
            all == rk.take(n as int).map_values(
                |r: (Seq<char>, ToolStats)| r.0 + ":"@ + decimal(r.1.calls as nat),
            ),
            texts(out@) == all.take(i as int),
        decreases n - i,
    {
        assert(rk[i as int] == (rows@[i as int].0@, rows@[i as int].1));
        let line = cat3(rows[i].0.as_str(), ":", size_text(rows[i].1.calls).as_str());
        assert(line@ == all[i as int]);
        let ghost before = texts(out@);
        out.push(line);
        assert(texts(out@) =~= before.push(all[i as int]));
        assert(all.take(i as int).push(all[i as int]) =~= all.take(i + 1));
        i += 1;
    }
    assert(all.take(i as int) =~= all);
    out
}

fn write_context_row(label: &str, g: &Group, rate: &str) -> (r: String)
    ensures
        r@ == context_row(label@, g@, rate@),
{
    let mut out = "| ".to_owned();
    put(&mut out, label);
    put(&mut out, " | ");
    put_number(&mut out, g.sessions as u64);
    put(&mut out, " | ");
    put(&mut out, rate);
    put(&mut out, " | ");
    put_number(&mut out, g.compactions as u64);
    put(&mut out, " | ");
    let top = list_top(g);
    put(&mut out, join(&top, " ").as_str());
    put(&mut out, " |\n");
    out
}

fn labels() -> (r: Vec<&'static str>)
    ensures
        r@.len() == 4,
        forall|i: int| 0 <= i < 4 ==> (#[trigger] r@[i])@ == bucket_labels()[i],
{
    vec!["<10k", "10-30k", "30-60k", ">60k"]
}

fn write_context_rows(groups: &Vec<(String, Group)>, rates: &Vec<String>) -> (r: String)
    requires
        rates@.len() == groups@.len(),
    ensures
        r@ == context_rows(row_views(groups@), texts(rates@), 4),
{
    let names = labels();
    let ghost gs = row_views(groups@);
    let mut out = "".to_owned();
    proof {
        reveal_strlit("");
    }
    let mut i: usize = 0;
    assert(out@ =~= Seq::empty());
    while i < 4
        invariant
            i <= 4,
            names@.len() == 4,
            forall|i: int| 0 <= i < 4 ==> (#[trigger] names@[i])@ == bucket_labels()[i],
            gs == row_views(groups@),
            rates@.len() == groups@.len(),
            out@ == context_rows(gs, texts(rates@), i as nat),
        decreases 4 - i,
    {
        let label = names[i];
        assert(label@ == bucket_labels()[i as int]);
        let p: usize = find_spot(groups, label);
        let ghost before = out@;
        if p < groups.len() && same(groups[p].0.as_str(), label) {
            assert(gs[p as int] == (groups@[p as int].0@, groups@[p as int].1@));
            put(&mut out, write_context_row(label, &groups[p].1, rates[p].as_str()).as_str());
        } else {
            assert(p < groups@.len() ==> gs[p as int] == (
                groups@[p as int].0@,
                groups@[p as int].1@,
            ));
            assert(before + Seq::<char>::empty() =~= before);
        }
        i += 1;
    }
    out
}

fn quote_all(list: &Vec<String>) -> (r: Vec<String>)
    ensures
        texts(r@) == texts(list@).map_values(|t: Seq<char>| "`"@ + t + "`"@),
{
    let ghost all = texts(list@).map_values(|t: Seq<char>| "`"@ + t + "`"@);
    let mut out: Vec<String> = Vec::new();
    let mut i: usize = 0;
    assert(texts(out@) =~= all.take(0));
    while i < list.len()
        invariant
            i <= list@.len(),
            all == texts(list@).map_values(|t: Seq<char>| "`"@ + t + "`"@),
            texts(out@) == all.take(i as int),
        decreases list@.len() - i,
    {
        let ghost before = texts(out@);
        out.push(cat3("`", list[i].as_str(), "`"));
        assert(texts(out@) =~= before.push(all[i as int]));
        assert(all.take(i as int).push(all[i as int]) =~= all.take(i + 1));
        i += 1;
    }
    assert(all.take(i as int) =~= all);
    out
}

/// Writes the report. `shares` gives, for each tool by rank, its share of the
/// calls in percent; `rates` gives, for each group by context, the calls per
/// session.
pub fn render(s: &Stats, shares: &Vec<String>, rates: &Vec<String>) -> (r: String)
    requires
        shares@.len() == s.overall.tools@.len(),
        rates@.len() == s.by_context@.len(),
    ensures
        r@ == report(*s, texts(shares@), texts(rates@)),
{
    let mut out = write_head(s);
    let ghost head = out@;
    if s.overall.tool_calls == 0 {
        put(&mut out, "\nNo tool calls recorded yet.\n");
        return out;
    }
    put(&mut out, TOOLS_HEADER);
    let rows = s.overall.ranked();
    let ghost rk = ranking(s.overall@.tools);
    let ghost top = out@;
    let ghost sh = texts(shares@);
    let mut i: usize = 0;
    assert(top + Seq::<char>::empty() =~= top);
    while i < rows.len()
        invariant
            i <= rows@.len() == shares@.len(),
            rk == row_views(rows@),
            sh == texts(shares@),
            out@ == top + tool_rows(rk, sh, s.sessions_with_tool_calls as nat, i as nat),
        decreases rows@.len() - i,
    {
        assert(rk[i as int] == (rows@[i as int].0@, rows@[i as int].1));
        let row = write_tool_row(
            rows[i].0.as_str(),
            &rows[i].1,
            shares[i].as_str(),
            s.sessions_with_tool_calls,
        );
        let ghost before = out@;
        put(&mut out, row.as_str());
        assert(out@ =~= top + (tool_rows(rk, sh, s.sessions_with_tool_calls as nat, i as nat)
            + row@));
        i += 1;
    }
    put(&mut out, CONTEXT_HEADER);
    put(&mut out, write_context_rows(&s.by_context, rates).as_str());
    let ghost mid = out@;
    if s.never_called.len() > 0 {
        put(&mut out, "\nNever called on real projects: ");
        let quoted = quote_all(&s.never_called);
        put(&mut out, join(&quoted, ", ").as_str());
        put(&mut out, "\n");
    }
    assert(out@ =~= report(*s, texts(shares@), texts(rates@))) by {
        let table = tool_rows(rk, sh, s.sessions_with_tool_calls as nat, rows@.len());
        let contexts = context_rows(row_views(s.by_context@), texts(rates@), 4);
        assert(mid =~= head + (TOOLS_HEADER@ + table + CONTEXT_HEADER@ + contexts));
    }
    out
}

// ------------------------------------------------------------ laws

/// Each session counts once in the whole.
pub proof fn law_every_session_counts(s: Seq<AuditSummary>)
    requires
        s.len() <= usize::MAX,
    ensures
        overall_of(s).sessions == s.len(),
    decreases s.len(),
{
    if s.len() > 0 {
        law_every_session_counts(s.drop_last());
    }
}

proof fn lemma_tools_in_order(rows: Seq<(Seq<char>, ToolStats)>, s: AuditSummary, n: nat)
    requires
        in_key_order(rows),
    ensures
        in_key_order(tools_grown(rows, s, n)),
    decreases n,
{
    if n > 0 {
        let before = tools_grown(rows, s, (n - 1) as nat);
        let name = s.tools@[n - 1].0@;
        lemma_tools_in_order(rows, s, (n - 1) as nat);
        law_row_is_put(
            before,
            name,
            tool_grown(
                row_with(before, name),
                s.tools@[n - 1].1,
                errors_of(s, name),
                result_tokens_of(s, name),
            ),
            name,
        );
    }
}

/// However many sessions are taken in, a tool stands in the list once, and the
/// list stays in the order of the names.
pub proof fn law_tools_stay_in_order(g: GroupV, s: AuditSummary)
    requires
        in_key_order(g.tools),
    ensures
        in_key_order(absorbed(g, s).tools),
{
    lemma_tools_in_order(g.tools, s, s.tools@.len());
}

/// A tool that a session does not name keeps what is known of it.
pub proof fn law_other_tools_stay(rows: Seq<(Seq<char>, ToolStats)>, s: AuditSummary, n: nat, tool: Seq<char>)
    requires
        in_key_order(rows),
        n <= s.tools@.len(),
        forall|i: int| 0 <= i < n ==> (#[trigger] s.tools@[i]).0@ != tool,
    ensures
        row_with(tools_grown(rows, s, n), tool) == row_with(rows, tool),
    decreases n,
{
    if n > 0 {
        let before = tools_grown(rows, s, (n - 1) as nat);
        let name = s.tools@[n - 1].0@;
        lemma_tools_in_order(rows, s, (n - 1) as nat);
        law_other_tools_stay(rows, s, (n - 1) as nat, tool);
        law_row_is_put(
            before,
            name,
            tool_grown(
                row_with(before, name),
                s.tools@[n - 1].1,
                errors_of(s, name),
                result_tokens_of(s, name),
            ),
            tool,
        );
    }
}

/// The rows stand by rank: none is outranked by one behind it.
pub open spec fn by_rank(rows: Seq<(Seq<char>, ToolStats)>) -> bool {
    forall|i: int, j: int|
        0 <= i < j < rows.len() ==> !outranks(#[trigger] rows[j], #[trigger] rows[i])
}

proof fn lemma_outranks(
    a: (Seq<char>, ToolStats),
    b: (Seq<char>, ToolStats),
    c: (Seq<char>, ToolStats),
)
    ensures
        !outranks(a, b) && !outranks(b, c) ==> !outranks(a, c),
        outranks(a, b) ==> !outranks(b, a),
{
    lemma_order_total(a.0, b.0);
    lemma_order_total(b.0, c.0);
    lemma_order_total(a.0, c.0);
    if outranks(a, c) && a.1.calls == c.1.calls && b.1.calls == a.1.calls {
        if precedes(c.0, b.0) {
            lemma_order_transitive(a.0, c.0, b.0);
        }
        if precedes(b.0, a.0) {
            lemma_order_transitive(b.0, a.0, c.0);
        }
    }
}

proof fn lemma_ranked_in(rows: Seq<(Seq<char>, ToolStats)>, row: (Seq<char>, ToolStats))
    requires
        by_rank(rows),
    ensures
        by_rank(ranked_in(rows, row)),
        ranked_in(rows, row).to_multiset() == rows.push(row).to_multiset(),
        ranked_in(rows, row).len() == rows.len() + 1,
        forall|x: (Seq<char>, ToolStats)|
            (forall|i: int| 0 <= i < rows.len() ==> !outranks(x, #[trigger] rows[i])) && !outranks(
                x,
                row,
            ) ==> (forall|i: int|
                0 <= i < ranked_in(rows, row).len() ==> !outranks(x, #[trigger] ranked_in(rows, row)[i])),
    decreases rows.len(),
{
    broadcast use vstd::seq_lib::group_to_multiset_ensures;
    let after = ranked_in(rows, row);
    if rows.len() == 0 {
        assert(after =~= rows.push(row));
    } else if outranks(row, rows.last()) {
        let front = rows.drop_last();
        let last = rows.last();
        assert forall|i: int, j: int| 0 <= i < j < front.len() implies !outranks(
            #[trigger] front[j],
            #[trigger] front[i],
        ) by {
            assert(front[i] == rows[i] && front[j] == rows[j]);
        }
        lemma_ranked_in(front, row);
        let a = ranked_in(front, row);
        lemma_outranks(row, last, row);
        assert forall|i: int| 0 <= i < front.len() implies !outranks(last, #[trigger] front[i]) by {
            assert(front[i] == rows[i] && last == rows[rows.len() - 1]);
        }
        assert(forall|i: int| 0 <= i < a.len() ==> !outranks(last, #[trigger] a[i]));
        assert forall|i: int, j: int| 0 <= i < j < after.len() implies !outranks(
            #[trigger] after[j],
            #[trigger] after[i],
        ) by {
            if j < a.len() {
                assert(after[i] == a[i] && after[j] == a[j]);
            } else {
                assert(after[i] == a[i] && after[j] == last);
            }
        }
        assert(rows =~= front.push(last));
        assert(after.to_multiset() =~= rows.push(row).to_multiset()) by {
            vstd::seq_lib::to_multiset_build(a, last);
            vstd::seq_lib::to_multiset_build(front, row);
            vstd::seq_lib::to_multiset_build(front, last);
            vstd::seq_lib::to_multiset_build(rows, row);
        }
        assert forall|x: (Seq<char>, ToolStats)|
            (forall|i: int| 0 <= i < rows.len() ==> !outranks(x, #[trigger] rows[i])) && !outranks(
                x,
                row,
            ) implies (forall|i: int|
            0 <= i < after.len() ==> !outranks(x, #[trigger] after[i])) by {
            assert forall|i: int| 0 <= i < front.len() implies !outranks(x, #[trigger] front[i]) by {
                assert(front[i] == rows[i]);
            }
            assert(!outranks(x, rows[rows.len() - 1]));
            assert forall|i: int| 0 <= i < after.len() implies !outranks(x, #[trigger] after[i]) by {
                if i < a.len() {
                    assert(after[i] == a[i]);
                }
            }
        }
    } else {
        let last = rows.last();
        assert forall|i: int, j: int| 0 <= i < j < after.len() implies !outranks(
            #[trigger] after[j],
            #[trigger] after[i],
        ) by {
            if j == rows.len() {
                assert(after[j] == row && after[i] == rows[i]);
                if i < rows.len() - 1 {
                    assert(!outranks(rows[rows.len() - 1], rows[i]));
                    lemma_outranks(row, last, rows[i]);
                }
            } else {
                assert(after[i] == rows[i] && after[j] == rows[j]);
            }
        }
        assert forall|x: (Seq<char>, ToolStats)|
            (forall|i: int| 0 <= i < rows.len() ==> !outranks(x, #[trigger] rows[i])) && !outranks(
                x,
                row,
            ) implies (forall|i: int|
            0 <= i < after.len() ==> !outranks(x, #[trigger] after[i])) by {
            assert forall|i: int| 0 <= i < after.len() implies !outranks(x, #[trigger] after[i]) by {
                if i < rows.len() {
                    assert(after[i] == rows[i]);
                }
            }
        }
    }
}

/// The ranking holds every tool as often as the list does, and no tool is
/// outranked by one behind it.
pub proof fn law_ranking_orders_the_tools(rows: Seq<(Seq<char>, ToolStats)>)
    ensures
        by_rank(ranking(rows)),
        ranking(rows).to_multiset() == rows.to_multiset(),
    decreases rows.len(),
{
    broadcast use vstd::seq_lib::group_to_multiset_ensures;
    if rows.len() == 0 {
        assert(ranking(rows) =~= rows);
    } else {
        let front = rows.drop_last();
        law_ranking_orders_the_tools(front);
        lemma_ranked_in(ranking(front), rows.last());
        assert(rows =~= front.push(rows.last()));
        vstd::seq_lib::to_multiset_build(ranking(front), rows.last());
        vstd::seq_lib::to_multiset_build(front, rows.last());
    }
}

/// The counts of sessions add up, each to its own, and never shrink; of the sizes of
/// the system prompt the larger one is kept.
pub proof fn law_counts_add_up(a: TelemetryTotals, b: TelemetryTotals)
    ensures
        ({
            let c = combined(a, b);
            &&& a.runs + b.runs <= u64::MAX ==> c.runs == a.runs + b.runs
            &&& a.runs <= c.runs && b.runs <= c.runs
            &&& a.compaction_fired + b.compaction_fired <= u64::MAX ==> c.compaction_fired == a.compaction_fired + b.compaction_fired
            &&& a.compaction_fired <= c.compaction_fired && b.compaction_fired <= c.compaction_fired
            &&& a.historia_writes + b.historia_writes <= u64::MAX ==> c.historia_writes == a.historia_writes + b.historia_writes
            &&& a.historia_writes <= c.historia_writes && b.historia_writes <= c.historia_writes
            &&& a.historia_hits + b.historia_hits <= u64::MAX ==> c.historia_hits == a.historia_hits + b.historia_hits
            &&& a.historia_hits <= c.historia_hits && b.historia_hits <= c.historia_hits
            &&& a.hook_pre_runs + b.hook_pre_runs <= u64::MAX ==> c.hook_pre_runs == a.hook_pre_runs + b.hook_pre_runs
            &&& a.hook_pre_runs <= c.hook_pre_runs && b.hook_pre_runs <= c.hook_pre_runs
            &&& a.hook_pre_denies + b.hook_pre_denies <= u64::MAX ==> c.hook_pre_denies == a.hook_pre_denies + b.hook_pre_denies
            &&& a.hook_pre_denies <= c.hook_pre_denies && b.hook_pre_denies <= c.hook_pre_denies
            &&& a.hook_post_runs + b.hook_post_runs <= u64::MAX ==> c.hook_post_runs == a.hook_post_runs + b.hook_post_runs
            &&& a.hook_post_runs <= c.hook_post_runs && b.hook_post_runs <= c.hook_post_runs
            &&& a.hook_post_failures + b.hook_post_failures <= u64::MAX ==> c.hook_post_failures == a.hook_post_failures + b.hook_post_failures
            &&& a.hook_post_failures <= c.hook_post_failures && b.hook_post_failures <= c.hook_post_failures
            &&& a.hook_stop_runs + b.hook_stop_runs <= u64::MAX ==> c.hook_stop_runs == a.hook_stop_runs + b.hook_stop_runs
            &&& a.hook_stop_runs <= c.hook_stop_runs && b.hook_stop_runs <= c.hook_stop_runs
            &&& a.hook_stop_retries + b.hook_stop_retries <= u64::MAX ==> c.hook_stop_retries == a.hook_stop_retries + b.hook_stop_retries
            &&& a.hook_stop_retries <= c.hook_stop_retries && b.hook_stop_retries <= c.hook_stop_retries
            &&& a.hook_stop_exhausted + b.hook_stop_exhausted <= u64::MAX ==> c.hook_stop_exhausted == a.hook_stop_exhausted + b.hook_stop_exhausted
            &&& a.hook_stop_exhausted <= c.hook_stop_exhausted && b.hook_stop_exhausted <= c.hook_stop_exhausted
            &&& a.tusk_runs + b.tusk_runs <= u64::MAX ==> c.tusk_runs == a.tusk_runs + b.tusk_runs
            &&& a.tusk_runs <= c.tusk_runs && b.tusk_runs <= c.tusk_runs
            &&& a.tusk_edits + b.tusk_edits <= u64::MAX ==> c.tusk_edits == a.tusk_edits + b.tusk_edits
            &&& a.tusk_edits <= c.tusk_edits && b.tusk_edits <= c.tusk_edits
            &&& a.tusk_withheld + b.tusk_withheld <= u64::MAX ==> c.tusk_withheld == a.tusk_withheld + b.tusk_withheld
            &&& a.tusk_withheld <= c.tusk_withheld && b.tusk_withheld <= c.tusk_withheld
            &&& a.oracle_runs + b.oracle_runs <= u64::MAX ==> c.oracle_runs == a.oracle_runs + b.oracle_runs
            &&& a.oracle_runs <= c.oracle_runs && b.oracle_runs <= c.oracle_runs
            &&& a.oracle_failures + b.oracle_failures <= u64::MAX ==> c.oracle_failures == a.oracle_failures + b.oracle_failures
            &&& a.oracle_failures <= c.oracle_failures && b.oracle_failures <= c.oracle_failures
            &&& a.oracle_retries + b.oracle_retries <= u64::MAX ==> c.oracle_retries == a.oracle_retries + b.oracle_retries
            &&& a.oracle_retries <= c.oracle_retries && b.oracle_retries <= c.oracle_retries
            &&& a.oracle_rollbacks + b.oracle_rollbacks <= u64::MAX ==> c.oracle_rollbacks == a.oracle_rollbacks + b.oracle_rollbacks
            &&& a.oracle_rollbacks <= c.oracle_rollbacks && b.oracle_rollbacks <= c.oracle_rollbacks
            &&& a.oracle_exhausted + b.oracle_exhausted <= u64::MAX ==> c.oracle_exhausted == a.oracle_exhausted + b.oracle_exhausted
            &&& a.oracle_exhausted <= c.oracle_exhausted && b.oracle_exhausted <= c.oracle_exhausted
            &&& a.ask_user_rounds + b.ask_user_rounds <= u64::MAX ==> c.ask_user_rounds == a.ask_user_rounds + b.ask_user_rounds
            &&& a.ask_user_rounds <= c.ask_user_rounds && b.ask_user_rounds <= c.ask_user_rounds
            &&& a.ask_user_questions + b.ask_user_questions <= u64::MAX ==> c.ask_user_questions == a.ask_user_questions + b.ask_user_questions
            &&& a.ask_user_questions <= c.ask_user_questions && b.ask_user_questions <= c.ask_user_questions
            &&& a.verify_tool_runs + b.verify_tool_runs <= u64::MAX ==> c.verify_tool_runs == a.verify_tool_runs + b.verify_tool_runs
            &&& a.verify_tool_runs <= c.verify_tool_runs && b.verify_tool_runs <= c.verify_tool_runs
            &&& a.spill_writes + b.spill_writes <= u64::MAX ==> c.spill_writes == a.spill_writes + b.spill_writes
            &&& a.spill_writes <= c.spill_writes && b.spill_writes <= c.spill_writes
            &&& a.read_outlines + b.read_outlines <= u64::MAX ==> c.read_outlines == a.read_outlines + b.read_outlines
            &&& a.read_outlines <= c.read_outlines && b.read_outlines <= c.read_outlines
            &&& a.patch_applies + b.patch_applies <= u64::MAX ==> c.patch_applies == a.patch_applies + b.patch_applies
            &&& a.patch_applies <= c.patch_applies && b.patch_applies <= c.patch_applies
            &&& a.patch_rejects + b.patch_rejects <= u64::MAX ==> c.patch_rejects == a.patch_rejects + b.patch_rejects
            &&& a.patch_rejects <= c.patch_rejects && b.patch_rejects <= c.patch_rejects
            &&& a.stream_rule_trips + b.stream_rule_trips <= u64::MAX ==> c.stream_rule_trips == a.stream_rule_trips + b.stream_rule_trips
            &&& a.stream_rule_trips <= c.stream_rule_trips && b.stream_rule_trips <= c.stream_rule_trips
            &&& a.plan_contract_initialized + b.plan_contract_initialized <= u64::MAX ==> c.plan_contract_initialized == a.plan_contract_initialized + b.plan_contract_initialized
            &&& a.plan_contract_initialized <= c.plan_contract_initialized && b.plan_contract_initialized <= c.plan_contract_initialized
            &&& a.plan_contract_updated + b.plan_contract_updated <= u64::MAX ==> c.plan_contract_updated == a.plan_contract_updated + b.plan_contract_updated
            &&& a.plan_contract_updated <= c.plan_contract_updated && b.plan_contract_updated <= c.plan_contract_updated
            &&& a.plan_mutations_blocked + b.plan_mutations_blocked <= u64::MAX ==> c.plan_mutations_blocked == a.plan_mutations_blocked + b.plan_mutations_blocked
            &&& a.plan_mutations_blocked <= c.plan_mutations_blocked && b.plan_mutations_blocked <= c.plan_mutations_blocked
            &&& a.tool_batches + b.tool_batches <= u64::MAX ==> c.tool_batches == a.tool_batches + b.tool_batches
            &&& a.tool_batches <= c.tool_batches && b.tool_batches <= c.tool_batches
            &&& a.tool_calls_emitted + b.tool_calls_emitted <= u64::MAX ==> c.tool_calls_emitted == a.tool_calls_emitted + b.tool_calls_emitted
            &&& a.tool_calls_emitted <= c.tool_calls_emitted && b.tool_calls_emitted <= c.tool_calls_emitted
            &&& a.completion_checks_fired + b.completion_checks_fired <= u64::MAX ==> c.completion_checks_fired == a.completion_checks_fired + b.completion_checks_fired
            &&& a.completion_checks_fired <= c.completion_checks_fired && b.completion_checks_fired <= c.completion_checks_fired
            &&& a.test_file_mutations + b.test_file_mutations <= u64::MAX ==> c.test_file_mutations == a.test_file_mutations + b.test_file_mutations
            &&& a.test_file_mutations <= c.test_file_mutations && b.test_file_mutations <= c.test_file_mutations
            &&& a.best_of_attempts + b.best_of_attempts <= u64::MAX ==> c.best_of_attempts == a.best_of_attempts + b.best_of_attempts
            &&& a.best_of_attempts <= c.best_of_attempts && b.best_of_attempts <= c.best_of_attempts
            &&& a.best_of_selections + b.best_of_selections <= u64::MAX ==> c.best_of_selections == a.best_of_selections + b.best_of_selections
            &&& a.best_of_selections <= c.best_of_selections && b.best_of_selections <= c.best_of_selections
            &&& a.system_prompt_tokens <= c.system_prompt_tokens
            &&& b.system_prompt_tokens <= c.system_prompt_tokens
            &&& c.system_prompt_tokens == a.system_prompt_tokens || c.system_prompt_tokens
                == b.system_prompt_tokens
        }),
{
}

/// The calls that some sessions made.
pub open spec fn calls_made(s: Seq<AuditSummary>) -> nat
    decreases s.len(),
{
    if s.len() == 0 {
        0
    } else {
        calls_made(s.drop_last()) + s.last().tool_calls as nat
    }
}

/// How often some sessions were compacted.
pub open spec fn compactions_made(s: Seq<AuditSummary>) -> nat
    decreases s.len(),
{
    if s.len() == 0 {
        0
    } else {
        compactions_made(s.drop_last()) + s.last().compactions as nat
    }
}

/// How many of the sessions the user came back to.
pub open spec fn came_back(s: Seq<AuditSummary>) -> nat
    decreases s.len(),
{
    if s.len() == 0 {
        0
    } else {
        came_back(s.drop_last()) + (if s.last().user_turns >= 2 {
            1nat
        } else {
            0
        })
    }
}

/// In the whole, the calls, the compactions and the sessions that the user came back
/// to are those of all sessions together.
pub proof fn law_whole_is_the_sum(s: Seq<AuditSummary>)
    requires
        s.len() <= usize::MAX,
        calls_made(s) <= usize::MAX,
        compactions_made(s) <= usize::MAX,
    ensures
        overall_of(s).tool_calls == calls_made(s),
        overall_of(s).compactions == compactions_made(s),
        overall_of(s).multi_turn_sessions == came_back(s),
        came_back(s) <= s.len(),
        with_calls(s) <= s.len(),
    decreases s.len(),
{
    if s.len() > 0 {
        law_whole_is_the_sum(s.drop_last());
    }
}

/// The sessions whose largest context falls into a bucket, in order.
pub open spec fn sessions_in(s: Seq<AuditSummary>, label: Seq<char>) -> Seq<AuditSummary>
    decreases s.len(),
{
    if s.len() == 0 {
        Seq::empty()
    } else if bucket(s.last().peak_context_tokens as nat) == label {
        sessions_in(s.drop_last(), label).push(s.last())
    } else {
        sessions_in(s.drop_last(), label)
    }
}

/// The group of a bucket is what its own sessions give, as if there were no others;
/// a bucket without a session has no group.
pub proof fn law_buckets_hold_their_sessions(s: Seq<AuditSummary>, label: Seq<char>)
    ensures
        row_with(contexts_of(s), label) == (if sessions_in(s, label).len() == 0 {
            None
        } else {
            Some(overall_of(sessions_in(s, label)))
        }),
    decreases s.len(),
{
    if s.len() > 0 {
        let rows = contexts_of(s.drop_last());
        let own = bucket(s.last().peak_context_tokens as nat);
        law_buckets_hold_their_sessions(s.drop_last(), label);
        law_buckets_hold_their_sessions(s.drop_last(), own);
        lemma_contexts_in_order(s.drop_last());
        let g = absorbed(
            match row_with(rows, own) {
                Some(g) => g,
                None => no_sessions(),
            },
            s.last(),
        );
        law_row_is_put(rows, own, g, label);
        if own == label {
            let before = sessions_in(s.drop_last(), label);
            assert(before.push(s.last()).drop_last() =~= before);
            assert(before.push(s.last()).last() == s.last());
            assert(overall_of(before.push(s.last())) == absorbed(overall_of(before), s.last()));
            assert(before.len() == 0 ==> overall_of(before) == no_sessions());
        }
    } else {
        let none: Seq<(Seq<char>, GroupV)> = Seq::empty();
        assert(contexts_of(s) == none);
        assert(spot(none, label) == 0);
    }
}

/// Two sessions fall into one bucket where none of the limits lies between them: ten,
/// thirty and sixty thousand tokens; and every bucket is one of those that are shown.
pub proof fn law_buckets_part_at_the_limits(a: nat, b: nat)
    ensures
        bucket(a) == bucket(b) <==> ((a < 10_000) == (b < 10_000) && (a < 30_000) == (b < 30_000)
            && (a < 60_000) == (b < 60_000)),
        bucket_labels().contains(bucket(a)),
        a < b && bucket(a) != bucket(b) ==> exists|i: int, j: int|
            0 <= i < j < bucket_labels().len() && #[trigger] bucket_labels()[i] == bucket(a)
                && #[trigger] bucket_labels()[j] == bucket(b),
{
    reveal_strlit("<10k");
    reveal_strlit("10-30k");
    reveal_strlit("30-60k");
    reveal_strlit(">60k");
    assert("<10k"@[0] != ">60k"@[0]);
    assert("10-30k"@[0] != "30-60k"@[0]);
    assert("<10k"@.len() == 4 && "10-30k"@.len() == 6);
    assert("30-60k"@.len() == 6 && ">60k"@.len() == 4);
    let l = bucket_labels();
    assert(l[0] == "<10k"@ && l[1] == "10-30k"@ && l[2] == "30-60k"@ && l[3] == ">60k"@);
}

/// What is kept of a tool, where nothing is, as if it had never been called.
pub open spec fn kept_of(rows: Seq<(Seq<char>, ToolStats)>, tool: Seq<char>) -> ToolStats {
    match row_with(rows, tool) {
        Some(t) => t,
        None => ToolStats { calls: 0, sessions: 0, errors: 0, result_tokens: 0 },
    }
}

proof fn lemma_named_tool(
    rows: Seq<(Seq<char>, ToolStats)>,
    s: AuditSummary,
    n: nat,
    i: int,
)
    requires
        in_key_order(rows),
        0 <= i < n <= s.tools@.len(),
        forall|k: int| 0 <= k < n && k != i ==> (#[trigger] s.tools@[k]).0@ != s.tools@[i].0@,
    ensures
        ({
            let name = s.tools@[i].0@;
            row_with(tools_grown(rows, s, n), name) == Some(
                tool_grown(
                    row_with(rows, name),
                    s.tools@[i].1,
                    errors_of(s, name),
                    result_tokens_of(s, name),
                ),
            )
        }),
    decreases n,
{
    let name = s.tools@[i].0@;
    let before = tools_grown(rows, s, (n - 1) as nat);
    let last = s.tools@[n - 1].0@;
    lemma_tools_in_order(rows, s, (n - 1) as nat);
    law_row_is_put(
        before,
        last,
        tool_grown(
            row_with(before, last),
            s.tools@[n - 1].1,
            errors_of(s, last),
            result_tokens_of(s, last),
        ),
        name,
    );
    if i == n - 1 {
        law_other_tools_stay(rows, s, (n - 1) as nat, name);
    } else {
        assert(s.tools@[n - 1].0@ != name);
        lemma_named_tool(rows, s, (n - 1) as nat, i);
    }
}

/// A tool that a session names is known with the calls that the session made of it on
/// top of those before, and with one session more.
pub proof fn law_calls_of_a_tool_add_up(g: GroupV, s: AuditSummary, i: int)
    requires
        in_key_order(g.tools),
        0 <= i < s.tools@.len(),
        forall|k: int|
            0 <= k < s.tools@.len() && k != i ==> (#[trigger] s.tools@[k]).0@ != s.tools@[i].0@,
    ensures
        ({
            let name = s.tools@[i].0@;
            let old_kept = kept_of(g.tools, name);
            let new = kept_of(absorbed(g, s).tools, name);
            &&& row_with(absorbed(g, s).tools, name) is Some
            &&& old_kept.calls + s.tools@[i].1 <= usize::MAX ==> new.calls == old_kept.calls
                + s.tools@[i].1
            &&& old_kept.sessions < usize::MAX ==> new.sessions == old_kept.sessions + 1
        }),
{
    lemma_named_tool(g.tools, s, s.tools@.len(), i);
}

/// The failures and the results that a session lists under a tool are those that are
/// taken for it: failures as they were counted, results at four characters a token.
pub proof fn law_failures_and_results_of_a_tool_add_up(
    g: GroupV,
    s: AuditSummary,
    i: int,
    e: int,
    r: int,
)
    requires
        in_key_order(g.tools),
        0 <= i < s.tools@.len(),
        forall|k: int|
            0 <= k < s.tools@.len() && k != i ==> (#[trigger] s.tools@[k]).0@ != s.tools@[i].0@,
        0 <= e < s.errors_by_tool@.len(),
        s.errors_by_tool@[e].0@ == s.tools@[i].0@,
        forall|k: int| 0 <= k < e ==> (#[trigger] s.errors_by_tool@[k]).0@ != s.tools@[i].0@,
        0 <= r < s.result_chars_by_tool@.len(),
        s.result_chars_by_tool@[r].0@ == s.tools@[i].0@,
        forall|k: int| 0 <= k < r ==> (#[trigger] s.result_chars_by_tool@[k]).0@ != s.tools@[i].0@,
    ensures
        ({
            let name = s.tools@[i].0@;
            let old_kept = kept_of(g.tools, name);
            let new = kept_of(absorbed(g, s).tools, name);
            &&& old_kept.errors + s.errors_by_tool@[e].1 <= usize::MAX ==> new.errors
                == old_kept.errors + s.errors_by_tool@[e].1
            &&& old_kept.result_tokens + s.result_chars_by_tool@[r].1 <= u64::MAX ==> 4 * (
            new.result_tokens - old_kept.result_tokens) <= s.result_chars_by_tool@[r].1 < 4 * (
            new.result_tokens - old_kept.result_tokens) + 4
        }),
{
    lemma_named_tool(g.tools, s, s.tools@.len(), i);
    lemma_count_is(s.errors_by_tool@, s.tools@[i].0@, e);
    lemma_amount_is(s.result_chars_by_tool@, s.tools@[i].0@, r);
}

proof fn lemma_count_is(rows: Seq<(String, usize)>, name: Seq<char>, e: int)
    requires
        0 <= e < rows.len(),
        rows[e].0@ == name,
        forall|k: int| 0 <= k < e ==> (#[trigger] rows[k]).0@ != name,
    ensures
        count_under(rows, name) == Some(rows[e].1),
    decreases rows.len(),
{
    if e > 0 {
        let rest = rows.drop_first();
        assert(rows[0].0@ != name);
        assert forall|k: int| 0 <= k < e - 1 implies (#[trigger] rest[k]).0@ != name by {
            assert(rest[k] == rows[k + 1]);
        }
        lemma_count_is(rest, name, e - 1);
    }
}

proof fn lemma_amount_is(rows: Seq<(String, u64)>, name: Seq<char>, e: int)
    requires
        0 <= e < rows.len(),
        rows[e].0@ == name,
        forall|k: int| 0 <= k < e ==> (#[trigger] rows[k]).0@ != name,
    ensures
        amount_under(rows, name) == Some(rows[e].1),
    decreases rows.len(),
{
    if e > 0 {
        let rest = rows.drop_first();
        assert(rows[0].0@ != name);
        assert forall|k: int| 0 <= k < e - 1 implies (#[trigger] rest[k]).0@ != name by {
            assert(rest[k] == rows[k + 1]);
        }
        lemma_amount_is(rest, name, e - 1);
    }
}

/// A session names the tool among the first `n` of its own.
pub open spec fn names_tool(s: AuditSummary, n: int, tool: Seq<char>) -> bool {
    exists|i: int| 0 <= i < n && (#[trigger] s.tools@[i]).0@ == tool
}

proof fn lemma_tool_is_known(
    rows: Seq<(Seq<char>, ToolStats)>,
    s: AuditSummary,
    n: nat,
    tool: Seq<char>,
)
    requires
        in_key_order(rows),
        n <= s.tools@.len(),
    ensures
        row_with(tools_grown(rows, s, n), tool) is Some <==> row_with(rows, tool) is Some
            || names_tool(s, n as int, tool),
    decreases n,
{
    if n > 0 {
        let before = tools_grown(rows, s, (n - 1) as nat);
        let last = s.tools@[n - 1].0@;
        lemma_tool_is_known(rows, s, (n - 1) as nat, tool);
        lemma_tools_in_order(rows, s, (n - 1) as nat);
        law_row_is_put(
            before,
            last,
            tool_grown(
                row_with(before, last),
                s.tools@[n - 1].1,
                errors_of(s, last),
                result_tokens_of(s, last),
            ),
            tool,
        );
        if names_tool(s, n as int, tool) && !names_tool(s, n - 1, tool) {
            let i = choose|i: int| 0 <= i < n && (#[trigger] s.tools@[i]).0@ == tool;
            assert(i == n - 1);
        }
        if names_tool(s, n - 1, tool) {
            let i = choose|i: int| 0 <= i < n - 1 && (#[trigger] s.tools@[i]).0@ == tool;
            assert(names_tool(s, n as int, tool));
        }
        if last == tool {
            assert(s.tools@[n - 1].0@ == tool);
            assert(names_tool(s, n as int, tool));
        }
    }
}

proof fn lemma_whole_knows(s: Seq<AuditSummary>, tool: Seq<char>)
    ensures
        in_key_order(overall_of(s).tools),
        row_with(overall_of(s).tools, tool) is Some <==> exists|k: int|
            0 <= k < s.len() && names_tool(#[trigger] s[k], s[k].tools@.len() as int, tool),
    decreases s.len(),
{
    if s.len() > 0 {
        let front = s.drop_last();
        lemma_whole_knows(front, tool);
        law_tools_stay_in_order(overall_of(front), s.last());
        lemma_tool_is_known(overall_of(front).tools, s.last(), s.last().tools@.len(), tool);
        if row_with(overall_of(front).tools, tool) is Some {
            let k = choose|k: int|
                0 <= k < front.len() && names_tool(
                    #[trigger] front[k],
                    front[k].tools@.len() as int,
                    tool,
                );
            assert(s[k] == front[k]);
        }
        if exists|k: int|
            0 <= k < s.len() && names_tool(#[trigger] s[k], s[k].tools@.len() as int, tool) {
            let k = choose|k: int|
                0 <= k < s.len() && names_tool(#[trigger] s[k], s[k].tools@.len() as int, tool);
            if k < front.len() {
                assert(front[k] == s[k]);
            }
        }
        if names_tool(s.last(), s.last().tools@.len() as int, tool) {
            assert(s[s.len() - 1] == s.last());
        }
    } else {
        let none: Seq<(Seq<char>, ToolStats)> = Seq::empty();
        assert(spot(none, tool) == 0);
    }
}

proof fn lemma_not_among(list: Seq<Seq<char>>, rows: Seq<(Seq<char>, ToolStats)>, tool: Seq<char>)
    ensures
        not_among(list, rows).contains(tool) <==> list.contains(tool) && row_with(
            rows,
            tool,
        ) is None,
    decreases list.len(),
{
    if list.len() > 0 {
        let front = list.drop_last();
        let (before, all) = (not_among(front, rows), not_among(list, rows));
        lemma_not_among(front, rows, tool);
        if all.contains(tool) {
            let k = choose|k: int| 0 <= k < all.len() && all[k] == tool;
            if k < before.len() {
                assert(before[k] == tool);
                let j = choose|j: int| 0 <= j < front.len() && front[j] == tool;
                assert(list[j] == tool);
            } else {
                assert(list[list.len() - 1] == tool);
            }
        }
        if list.contains(tool) && row_with(rows, tool) is None {
            let j = choose|j: int| 0 <= j < list.len() && list[j] == tool;
            if j < front.len() {
                assert(front[j] == tool);
                let k = choose|k: int| 0 <= k < before.len() && before[k] == tool;
                assert(all[k] == tool);
            } else {
                assert(all[all.len() - 1] == tool);
            }
        }
    }
}

/// A tool is said never to be called exactly where it is one of those that there are
/// and no session names it.
pub proof fn law_unused_tools_are_named(
    s: Seq<AuditSummary>,
    registry: Seq<Seq<char>>,
    tool: Seq<char>,
)
    ensures
        not_among(registry, overall_of(s).tools).contains(tool) <==> registry.contains(tool)
            && !exists|k: int|
            0 <= k < s.len() && names_tool(#[trigger] s[k], s[k].tools@.len() as int, tool),
{
    lemma_whole_knows(s, tool);
    lemma_not_among(registry, overall_of(s).tools, tool);
}

proof fn lemma_row_is_shown(
    rows: Seq<(Seq<char>, ToolStats)>,
    shares: Seq<Seq<char>>,
    used: nat,
    n: nat,
    i: int,
)
    requires
        0 <= i < n,
    ensures
        holds(tool_rows(rows, shares, used, n), tool_row(rows[i], shares[i], used)),
    decreases n,
{
    let before = tool_rows(rows, shares, used, (n - 1) as nat);
    let all = tool_rows(rows, shares, used, n);
    let one = tool_row(rows[i], shares[i], used);
    if i == n - 1 {
        let at = before.len() as int;
        assert(all.subrange(at, at + one.len()) =~= one);
        assert(occurs_at(all, one, at));
    } else {
        lemma_row_is_shown(rows, shares, used, (n - 1) as nat, i);
        let at = choose|at: int| occurs_at(before, one, at);
        assert(all.subrange(at, at + one.len()) =~= before.subrange(at, at + one.len()));
        assert(occurs_at(all, one, at));
    }
}

proof fn lemma_row_parts(t: (Seq<char>, ToolStats), share: Seq<char>, used: nat)
    ensures
        holds(
            tool_row(t, share, used),
            "| `"@ + t.0 + "` | "@ + decimal(t.1.calls as nat) + " | "@,
        ),
        holds(
            tool_row(t, share, used),
            decimal(t.1.sessions as nat) + "/"@ + decimal(used) + " | "@ + decimal(
                t.1.errors as nat,
            ) + " | "@ + decimal(t.1.result_tokens as nat) + " |\n"@,
        ),
{
    let one = tool_row(t, share, used);
    let a = "| `"@ + t.0 + "` | "@ + decimal(t.1.calls as nat) + " | "@;
    let b = decimal(t.1.sessions as nat) + "/"@ + decimal(used) + " | "@ + decimal(
        t.1.errors as nat,
    ) + " | "@ + decimal(t.1.result_tokens as nat) + " |\n"@;
    assert(one =~= a + (share + "% | "@) + b);
    assert(one.subrange(0, a.len() as int) =~= a);
    assert(occurs_at(one, a, 0));
    let over = one.len() - b.len();
    assert(one.subrange(over, over + b.len()) =~= b);
    assert(occurs_at(one, b, over));
}

proof fn lemma_held_through(all: Seq<char>, part: Seq<char>, n: Seq<char>)
    requires
        holds(all, part),
        holds(part, n),
    ensures
        holds(all, n),
{
    let at = choose|at: int| occurs_at(all, part, at);
    let inner = choose|inner: int| occurs_at(part, n, inner);
    assert(all.subrange(at + inner, at + inner + n.len()) =~= all.subrange(
        at,
        at + part.len(),
    ).subrange(inner, inner + n.len()));
    assert(occurs_at(all, n, at + inner));
}

proof fn lemma_held_in_report(
    head: Seq<char>,
    above: Seq<char>,
    list: Seq<char>,
    between: Seq<char>,
    below: Seq<char>,
    tail: Seq<char>,
    n: Seq<char>,
)
    requires
        holds(list, n),
    ensures
        holds(head + (above + list + between + below + tail), n),
{
    let all = head + (above + list + between + below + tail);
    let at = choose|at: int| occurs_at(list, n, at);
    let from = head.len() + above.len() + at;
    assert(all.subrange(from, from + n.len()) =~= list.subrange(at, at + n.len()));
    assert(occurs_at(all, n, from));
}

/// Every tool has its row in the report, wherever a call was made: its name with the
/// calls, and the sessions out of those that called one.
pub proof fn law_every_tool_is_reported(
    s: Stats,
    shares: Seq<Seq<char>>,
    rates: Seq<Seq<char>>,
    i: int,
)
    requires
        s.overall.tool_calls > 0,
        0 <= i < s.overall@.tools.len(),
    ensures
        ({
            let t = ranking(s.overall@.tools)[i];
            let shown = report(s, shares, rates);
            &&& holds(shown, "| `"@ + t.0 + "` | "@ + decimal(t.1.calls as nat) + " | "@)
            &&& holds(
                shown,
                decimal(t.1.sessions as nat) + "/"@ + decimal(s.sessions_with_tool_calls as nat)
                    + " | "@ + decimal(t.1.errors as nat) + " | "@ + decimal(
                    t.1.result_tokens as nat,
                ) + " |\n"@,
            )
        }),
{
    let rows = ranking(s.overall@.tools);
    let used = s.sessions_with_tool_calls as nat;
    let n = s.overall.tools@.len();
    lemma_row_is_shown(rows, shares, used, n, i);
    let t = rows[i];
    let a = "| `"@ + t.0 + "` | "@ + decimal(t.1.calls as nat) + " | "@;
    let b = decimal(t.1.sessions as nat) + "/"@ + decimal(used) + " | "@ + decimal(
        t.1.errors as nat,
    ) + " | "@ + decimal(t.1.result_tokens as nat) + " |\n"@;
    lemma_row_parts(t, shares[i], used);
    let list = tool_rows(rows, shares, used, n);
    let one = tool_row(t, shares[i], used);
    lemma_held_through(list, one, a);
    lemma_held_through(list, one, b);
    let ctx = context_rows(row_views(s.by_context@), rates, 4);
    let tail = if s.never_called@.len() > 0 {
        "\nNever called on real projects: "@ + joined(
            texts(s.never_called@).map_values(|t: Seq<char>| "`"@ + t + "`"@),
            ", "@,
        ) + "\n"@
    } else {
        Seq::empty()
    };
    lemma_held_in_report(report_head(s), TOOLS_HEADER@, list, CONTEXT_HEADER@, ctx, tail, a);
    lemma_held_in_report(report_head(s), TOOLS_HEADER@, list, CONTEXT_HEADER@, ctx, tail, b);
}

/// For a bucket the four tools that were called most are named, or all of them where there
/// are fewer, each with its calls, by rank.
pub proof fn law_most_used_tools_are_named(rows: Seq<(Seq<char>, ToolStats)>, i: int)
    ensures
        ranking(rows).len() >= 4 ==> top_tools(rows).len() == 4,
        ranking(rows).len() < 4 ==> top_tools(rows).len() == ranking(rows).len(),
        0 <= i < top_tools(rows).len() ==> top_tools(rows)[i] == ranking(rows)[i].0 + ":"@
            + decimal(ranking(rows)[i].1.calls as nat),
{
}

proof fn lemma_context_is_shown(
    groups: Seq<(Seq<char>, GroupV)>,
    rates: Seq<Seq<char>>,
    n: nat,
    i: int,
)
    requires
        0 <= i < n <= 4,
        row_with(groups, bucket_labels()[i]) is Some,
    ensures
        holds(
            context_rows(groups, rates, n),
            context_row(
                bucket_labels()[i],
                row_with(groups, bucket_labels()[i])->0,
                rates[spot(groups, bucket_labels()[i])],
            ),
        ),
    decreases n,
{
    let label = bucket_labels()[i];
    let one = context_row(label, row_with(groups, label)->0, rates[spot(groups, label)]);
    let before = context_rows(groups, rates, (n - 1) as nat);
    let all = context_rows(groups, rates, n);
    if i == n - 1 {
        let at = before.len() as int;
        assert(all.subrange(at, at + one.len()) =~= one);
        assert(occurs_at(all, one, at));
    } else {
        lemma_context_is_shown(groups, rates, (n - 1) as nat, i);
        let at = choose|at: int| occurs_at(before, one, at);
        assert(all.subrange(at, at + one.len()) =~= before.subrange(at, at + one.len()));
        assert(occurs_at(all, one, at));
    }
}

/// Every bucket that holds a session has its row: its label and how many sessions it has.
pub proof fn law_every_bucket_is_reported(
    groups: Seq<(Seq<char>, GroupV)>,
    rates: Seq<Seq<char>>,
    i: int,
)
    requires
        0 <= i < 4,
        row_with(groups, bucket_labels()[i]) is Some,
    ensures
        holds(
            context_rows(groups, rates, 4),
            "| "@ + bucket_labels()[i] + " | "@ + decimal(
                row_with(groups, bucket_labels()[i])->0.sessions as nat,
            ) + " | "@,
        ),
{
    let label = bucket_labels()[i];
    let g = row_with(groups, label)->0;
    lemma_context_is_shown(groups, rates, 4, i);
    let one = context_row(label, g, rates[spot(groups, label)]);
    let n = "| "@ + label + " | "@ + decimal(g.sessions as nat) + " | "@;
    lemma_row_begins(label, g, rates[spot(groups, label)]);
    lemma_held_through(context_rows(groups, rates, 4), one, n);
}

proof fn lemma_row_begins(label: Seq<char>, g: GroupV, rate: Seq<char>)
    ensures
        holds(
            context_row(label, g, rate),
            "| "@ + label + " | "@ + decimal(g.sessions as nat) + " | "@,
        ),
{
    let one = context_row(label, g, rate);
    let n = "| "@ + label + " | "@ + decimal(g.sessions as nat) + " | "@;
    assert(one.subrange(0, n.len() as int) =~= n);
    assert(occurs_at(one, n, 0));
}

} // verus!
