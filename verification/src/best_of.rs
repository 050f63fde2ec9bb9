//! Several attempts at one task, of which the project's own tests choose the
//! best. No model judges.
use vstd::prelude::*;
use crate::ai::setting_view;
use crate::checks::text_view;
use crate::text::{
    cat2, cat3, decimal, holds, law_numbers_are_read_back, number, occurs_at, parse_number,
    parsed_number, trim, trimmed,
};

verus! {

/// How many attempts there are at most: each is a full run.
pub const MAX_K: usize = 4;

/// What the tests say of a work tree.
#[derive(Debug)]
pub struct OracleResult {
    pub passed: bool,
    /// How many tests fail; the largest number where they could not be run.
    pub failed: usize,
    pub raw: String,
}

/// The text as a debugger writes it: in quotes, and escaped.
pub uninterp spec fn debug_text(t: Seq<char>) -> Seq<char>;

/// Writes a text as `std`'s `Debug` does. The result depends on the text alone.
#[verifier::external_body]
pub(crate) fn debug_str(t: &str) -> (r: String)
    ensures
        r@ == debug_text(t@),
{
    format!("{t:?}")
}

/// The number of attempts that a setting asks for: none for zero and one, which
/// switch the feature off; an error for what is no number or above the cap.
pub open spec fn asked_k(raw: Seq<char>) -> Result<Option<nat>, Seq<char>> {
    match parsed_number(trimmed(raw), usize::MAX as nat) {
        None => Err("SIRBONE_BEST_OF: expected a number, got "@ + debug_text(raw)),
        Some(k) => if k <= 1 {
            Ok(None)
        } else if k <= MAX_K {
            Ok(Some(k))
        } else {
            Err(
                "SIRBONE_BEST_OF="@ + decimal(k)
                    + " is above the cap of 4; each attempt is a full run"@,
            )
        },
    }
}

/// Computes [`asked_k`].
pub fn parse_k(raw: &str) -> (r: Result<Option<usize>, String>)
    ensures
        match r {
            Ok(Some(k)) => asked_k(raw@) == Ok::<Option<nat>, Seq<char>>(Some(k as nat)),
            Ok(None) => asked_k(raw@) == Ok::<Option<nat>, Seq<char>>(None),
            Err(e) => asked_k(raw@) == Err::<Option<nat>, Seq<char>>(e@),
        },
{
    match parse_number(trim(raw).as_str(), usize::MAX as u64) {
        None => Err(
            cat2("SIRBONE_BEST_OF: expected a number, got ", debug_str(raw).as_str()),
        ),
        Some(k) => if k <= 1 {
            Ok(None)
        } else if k <= MAX_K as u64 {
            Ok(Some(k as usize))
        } else {
            Err(
                cat3(
                    "SIRBONE_BEST_OF=",
                    number(k).as_str(),
                    " is above the cap of 4; each attempt is a full run",
                ),
            )
        },
    }
}

/// What is said where there are no tests to choose by.
pub const NO_SELECTOR: &'static str = "SIRBONE_BEST_OF needs `oracle.test_command` in the config: the \
attempts are selected by running it, and with nothing to run there is no selector but the model's own \
opinion";

/// The attempts at a task.
#[derive(Debug)]
pub struct BestOf {
    /// How many there are at most.
    pub k: usize,
    pub test_command: String,
    /// How many tests there have to be.
    pub min_tests: usize,
}

impl BestOf {
    /// What a setting and the configured tests ask for: `Ok(None)` where it is
    /// off, an error where it is on and cannot work.
    pub fn load(raw: Option<&str>, test_command: Option<String>, min_tests: usize) -> (r: Result<
        Option<BestOf>,
        String,
    >)
        ensures
            match setting_view(raw) {
                None => r matches Ok(None),
                Some(t) => match asked_k(t) {
                    Err(e) => r matches Err(m) && m@ == e,
                    Ok(None) => r matches Ok(None),
                    Ok(Some(k)) => match text_view(test_command) {
                        Some(c) => r matches Ok(Some(b)) && b.k == k && b.test_command@ == c
                            && b.min_tests == min_tests,
                        None => r matches Err(m) && m@ == NO_SELECTOR@,
                    },
                },
            },
    {
        match raw {
            None => Ok(None),
            Some(t) => match parse_k(t) {
                Err(e) => Err(e),
                Ok(None) => Ok(None),
                Ok(Some(k)) => match test_command {
                    Some(test_command) => Ok(Some(BestOf { k, test_command, min_tests })),
                    None => Err(NO_SELECTOR.to_owned()),
                },
            },
        }
    }

    /// The command that runs the tests.
    pub fn command(&self) -> (r: &str)
        ensures
            r@ == self.test_command@,
    {
        self.test_command.as_str()
    }
}

/// An attempt displaces the best so far: fewer of its tests fail.
pub open spec fn better(candidate: OracleResult, best: OracleResult) -> bool {
    candidate.failed < best.failed
}

/// Decides [`better`]. A tie keeps the earlier attempt.
pub fn improves(candidate: &OracleResult, best: &OracleResult) -> (b: bool)
    ensures
        b == better(*candidate, *best),
{
    candidate.failed < best.failed
}

/// Where the chosen one of some attempts stands, each weighed against the best
/// before it.
pub open spec fn chosen(results: Seq<OracleResult>) -> int
    decreases results.len(),
{
    if results.len() <= 1 {
        0
    } else {
        let best = chosen(results.drop_last());
        if better(results.last(), results[best]) {
            results.len() - 1
        } else {
            best
        }
    }
}

// ------------------------------------------------------------ laws

/// Tests that could not be run never win.
pub proof fn law_failed_run_never_wins(candidate: OracleResult, best: OracleResult)
    requires
        candidate.failed == usize::MAX,
    ensures
        !better(candidate, best),
{
}

/// A tie keeps the attempt that came first.
pub proof fn law_tie_keeps_the_first(candidate: OracleResult, best: OracleResult)
    requires
        candidate.failed == best.failed,
    ensures
        !better(candidate, best),
{
}

/// The chosen attempt is the first of those with the fewest failing tests.
pub proof fn law_chosen_is_the_first_best(results: Seq<OracleResult>)
    requires
        results.len() > 0,
    ensures
        0 <= chosen(results) < results.len(),
        forall|i: int|
            0 <= i < results.len() ==> results[chosen(results)].failed <= (
            #[trigger] results[i]).failed,
        forall|i: int|
            0 <= i < chosen(results) ==> results[chosen(results)].failed < (
            #[trigger] results[i]).failed,
    decreases results.len(),
{
    if results.len() > 1 {
        let front = results.drop_last();
        law_chosen_is_the_first_best(front);
        let best = chosen(front);
        assert(front[best] == results[best]);
        assert forall|i: int| 0 <= i < results.len() implies results[chosen(results)].failed <= (
        #[trigger] results[i]).failed by {
            if i < front.len() {
                assert(front[i] == results[i]);
            }
        }
        assert forall|i: int| 0 <= i < chosen(results) implies results[chosen(results)].failed < (
        #[trigger] results[i]).failed by {
            if i < front.len() {
                assert(front[i] == results[i]);
            }
        }
    }
}

/// No setting asks for more attempts than the cap, or for fewer than two.
pub proof fn law_k_is_bounded(raw: Seq<char>)
    ensures
        asked_k(raw) matches Ok(Some(k)) ==> 2 <= k <= MAX_K,
{
}

/// A number of attempts is taken as it is written: two, three and four are, nought and one
/// switch the feature off, and a larger one is refused by its number.
pub proof fn law_attempts_are_as_written(raw: Seq<char>, k: nat)
    requires
        trimmed(raw) == decimal(k),
        k <= usize::MAX,
    ensures
        k <= 1 ==> asked_k(raw) == Ok::<Option<nat>, Seq<char>>(None),
        2 <= k <= 4 ==> asked_k(raw) == Ok::<Option<nat>, Seq<char>>(Some(k)),
        k > 4 ==> asked_k(raw) is Err && holds(asked_k(raw)->Err_0, decimal(k)),
{
    law_numbers_are_read_back(k, k, usize::MAX as nat);
    if k > 4 {
        let all = asked_k(raw)->Err_0;
        let at = "SIRBONE_BEST_OF="@.len() as int;
        assert(all.subrange(at, at + decimal(k).len()) =~= decimal(k));
        assert(occurs_at(all, decimal(k), at));
    }
}

/// An attempt with fewer failing tests than all before it is the one that is chosen.
pub proof fn law_better_attempts_displace(results: Seq<OracleResult>, r: OracleResult)
    requires
        results.len() > 0,
    ensures
        (forall|i: int| 0 <= i < results.len() ==> r.failed < (#[trigger] results[i]).failed)
            ==> chosen(results.push(r)) == results.len(),
        (exists|i: int| 0 <= i < results.len() && (#[trigger] results[i]).failed <= r.failed)
            ==> chosen(results.push(r)) == chosen(results),
{
    law_chosen_is_the_first_best(results);
    let all = results.push(r);
    assert(all.drop_last() =~= results);
    assert(all[chosen(results)] == results[chosen(results)]);
}

} // verus!
