//! Which tool calls of a batch may run side by side.
use vstd::prelude::*;
use crate::text::same;
use crate::types::{tool_calls, ToolCall, ToolCallV};

verus! {

/// The file that each call modifies, if it modifies one.
pub open spec fn targets(paths: Seq<Option<String>>) -> Seq<Option<Seq<char>>> {
    paths.map_values(
        |p: Option<String>|
            match p {
                Some(t) => Some(t@),
                None => None,
            },
    )
}

/// The first of the first `n` calls that modifies the file `p`.
pub open spec fn first_on(paths: Seq<Option<Seq<char>>>, n: int, p: Seq<char>) -> Option<int>
    decreases n,
{
    if n <= 0 {
        None
    } else {
        match first_on(paths, n - 1, p) {
            Some(j) => Some(j),
            None => if paths[n - 1] == Some(p) {
                Some(n - 1)
            } else {
                None
            },
        }
    }
}

/// The call `i` opens a lane: it modifies no file, or one that no earlier call
/// modifies.
pub open spec fn opens_lane(paths: Seq<Option<Seq<char>>>, i: int) -> bool {
    match paths[i] {
        Some(p) => first_on(paths, i, p) is None,
        None => true,
    }
}

/// How many lanes the first `n` calls open.
pub open spec fn lane_count(paths: Seq<Option<Seq<char>>>, n: int) -> int
    decreases n,
{
    if n <= 0 {
        0
    } else if opens_lane(paths, n - 1) {
        lane_count(paths, n - 1) + 1
    } else {
        lane_count(paths, n - 1)
    }
}

/// The lane of the call `i`: the one of the first call on the same file, or a
/// new one.
pub open spec fn lane_of(paths: Seq<Option<Seq<char>>>, i: int) -> int {
    match paths[i] {
        Some(p) => match first_on(paths, i, p) {
            Some(j) => lane_count(paths, j),
            None => lane_count(paths, i),
        },
        None => lane_count(paths, i),
    }
}

/// The calls of lane `k` among the first `n`, in order.
pub open spec fn lane_calls(
    calls: Seq<ToolCallV>,
    paths: Seq<Option<Seq<char>>>,
    n: int,
    k: int,
) -> Seq<ToolCallV>
    decreases n,
{
    if n <= 0 {
        Seq::empty()
    } else if lane_of(paths, n - 1) == k {
        lane_calls(calls, paths, n - 1, k).push(calls[n - 1])
    } else {
        lane_calls(calls, paths, n - 1, k)
    }
}

proof fn lemma_lane_count_grows(paths: Seq<Option<Seq<char>>>, i: int, j: int)
    requires
        0 <= i <= j,
    ensures
        0 <= lane_count(paths, i) <= lane_count(paths, j),
        i < j && opens_lane(paths, i) ==> lane_count(paths, i) < lane_count(paths, j),
    decreases j,
{
    if i < j {
        lemma_lane_count_grows(paths, i, j - 1);
    } else if i > 0 {
        lemma_lane_count_grows(paths, i - 1, i - 1);
    }
}

proof fn lemma_first_on(paths: Seq<Option<Seq<char>>>, n: int, p: Seq<char>)
    requires
        0 <= n <= paths.len(),
    ensures
        first_on(paths, n, p) matches Some(j) ==> 0 <= j < n && paths[j] == Some(p) && first_on(
            paths,
            j,
            p,
        ) is None && opens_lane(paths, j),
        first_on(paths, n, p) is None ==> forall|j: int| 0 <= j < n ==> paths[j] != Some(p),
    decreases n,
{
    if n > 0 {
        lemma_first_on(paths, n - 1, p);
    }
}

proof fn lemma_lane_of_range(paths: Seq<Option<Seq<char>>>, i: int)
    requires
        0 <= i < paths.len(),
    ensures
        0 <= lane_of(paths, i) < lane_count(paths, i + 1),
        !opens_lane(paths, i) ==> lane_of(paths, i) < lane_count(paths, i),
{
    lemma_lane_count_grows(paths, i, i + 1);
    match paths[i] {
        Some(p) => {
            lemma_first_on(paths, i, p);
            if let Some(j) = first_on(paths, i, p) {
                lemma_lane_count_grows(paths, j, i);
            }
        },
        None => {},
    }
}

proof fn lemma_no_calls_yet(
    calls: Seq<ToolCallV>,
    paths: Seq<Option<Seq<char>>>,
    n: int,
    k: int,
)
    requires
        0 <= n <= paths.len(),
        k >= lane_count(paths, n),
    ensures
        lane_calls(calls, paths, n, k) == Seq::<ToolCallV>::empty(),
    decreases n,
{
    if n > 0 {
        lemma_lane_of_range(paths, n - 1);
        lemma_lane_count_grows(paths, n - 1, n);
        lemma_no_calls_yet(calls, paths, n - 1, k);
    }
}

/// The entries name the calls that opened a lane for a file, each with its lane.
pub open spec fn opened_ok(opened: Seq<(usize, usize)>, ps: Seq<Option<Seq<char>>>, n: int) -> bool {
    &&& forall|e: int|
        0 <= e < opened.len() ==> (#[trigger] opened[e]).0 < n && opened[e].1 == lane_count(
            ps,
            opened[e].0 as int,
        ) && ps[opened[e].0 as int] is Some && opens_lane(ps, opened[e].0 as int)
    &&& forall|j: int|
        0 <= j < n && ps[j] is Some && #[trigger] opens_lane(ps, j) ==> exists|e: int|
            0 <= e < opened.len() && (#[trigger] opened[e]).0 == j
}

fn find_lane(opened: &Vec<(usize, usize)>, paths: &Vec<Option<String>>, i: usize) -> (r: Option<
    usize,
>)
    requires
        i < paths@.len(),
        opened_ok(opened@, targets(paths@), i as int),
    ensures
        match r {
            Some(l) => !opens_lane(targets(paths@), i as int) && l == lane_of(
                targets(paths@),
                i as int,
            ),
            None => opens_lane(targets(paths@), i as int),
        },
{
    let ghost ps = targets(paths@);
    let ghost n = i as int;
    match &paths[i] {
        None => None,
        Some(path) => {
            assert(ps[n] == Some(path@));
            let mut e: usize = 0;
            while e < opened.len()
                invariant
                    e <= opened@.len(),
                    n == i < paths@.len(),
                    ps == targets(paths@),
                    ps[n] == Some(path@),
                    opened_ok(opened@, ps, n),
                    forall|x: int|
                        0 <= x < e ==> ps[(#[trigger] opened@[x]).0 as int] != Some(path@),
                decreases opened@.len() - e,
            {
                let j: usize = opened[e].0;
                if let Some(other) = &paths[j] {
                    assert(ps[j as int] == Some(other@));
                    if same(other.as_str(), path.as_str()) {
                        proof {
                            lemma_first_unique(ps, n, path@, j as int);
                        }
                        return Some(opened[e].1);
                    }
                }
                assert(ps[j as int] != Some(path@));
                e += 1;
            }
            proof {
                lemma_first_on(ps, n, path@);
                if let Some(j) = first_on(ps, n, path@) {
                    assert(opens_lane(ps, j));
                    let x = choose|x: int| 0 <= x < opened@.len() && (#[trigger] opened@[x]).0 == j;
                    assert(ps[opened@[x].0 as int] == Some(path@));
                }
            }
            None
        },
    }
}

/// Puts approved calls into lanes: the calls that modify the same file share one
/// and keep their order, every other call has one of its own. `paths` tells of
/// each call which file it modifies.
pub fn plan_lanes(approved: &Vec<ToolCall>, paths: &Vec<Option<String>>) -> (r: Vec<Vec<ToolCall>>)
    requires
        approved@.len() == paths@.len(),
    ensures
        r@.len() == lane_count(targets(paths@), paths@.len() as int),
        forall|k: int|
            0 <= k < r@.len() ==> tool_calls((#[trigger] r@[k])@) == lane_calls(
                tool_calls(approved@),
                targets(paths@),
                paths@.len() as int,
                k,
            ),
{
    let ghost calls = tool_calls(approved@);
    let ghost ps = targets(paths@);
    let mut lanes: Vec<Vec<ToolCall>> = Vec::new();
    let mut opened: Vec<(usize, usize)> = Vec::new();
    let mut i: usize = 0;
    while i < paths.len()
        invariant
            i <= paths@.len() == approved@.len(),
            ps == targets(paths@),
            calls == tool_calls(approved@),
            lanes@.len() == lane_count(ps, i as int),
            forall|k: int|
                0 <= k < lanes@.len() ==> tool_calls((#[trigger] lanes@[k])@) == lane_calls(
                    calls,
                    ps,
                    i as int,
                    k,
                ),
            opened_ok(opened@, ps, i as int),
        decreases paths@.len() - i,
    {
        let ghost before = lanes@;
        let ghost n = i as int;
        let call = approved[i].clone();
        assert(call@ == calls[n]);
        proof {
            lemma_lane_of_range(ps, n);
        }
        match find_lane(&opened, paths, i) {
            Some(l) => {
                let ghost old_lane = tool_calls(lanes@[l as int]@);
                lanes[l].push(call);
                assert(tool_calls(lanes@[l as int]@) =~= old_lane.push(calls[n]));
                assert forall|k: int| 0 <= k < lanes@.len() implies tool_calls(
                    (#[trigger] lanes@[k])@,
                ) == lane_calls(calls, ps, n + 1, k) by {
                    if k != l {
                        assert(lanes@[k] == before[k]);
                    }
                }
                assert(opened_ok(opened@, ps, n + 1));
            },
            None => {
                let size: usize = lanes.len();
                let mut own: Vec<ToolCall> = Vec::new();
                own.push(call);
                assert(tool_calls(own@) =~= seq![calls[n]]);
                lanes.push(own);
                let ghost old_opened = opened@;
                if paths[i].is_some() {
                    opened.push((i, size));
                    assert(opened@[old_opened.len() as int].0 == n);
                }
                proof {
                    lemma_no_calls_yet(calls, ps, n, size as int);
                    assert(lane_of(ps, n) == size);
                    assert(lane_calls(calls, ps, n + 1, size as int) =~= seq![calls[n]]);
                    assert forall|k: int| 0 <= k < lanes@.len() implies tool_calls(
                        (#[trigger] lanes@[k])@,
                    ) == lane_calls(calls, ps, n + 1, k) by {
                        if k < size {
                            assert(lanes@[k] == before[k]);
                        }
                    }
                    assert forall|j: int|
                        0 <= j < n + 1 && ps[j] is Some && #[trigger] opens_lane(ps, j) implies exists|
                        e: int,
                    |
                        0 <= e < opened@.len() && (#[trigger] opened@[e]).0 == j by {
                        if j < n {
                            let e = choose|e: int|
                                0 <= e < old_opened.len() && (#[trigger] old_opened[e]).0 == j;
                            assert(opened@[e].0 == j);
                        }
                    }
                }
            },
        }
        i += 1;
    }
    lanes
}

proof fn lemma_first_unique(paths: Seq<Option<Seq<char>>>, n: int, p: Seq<char>, j: int)
    requires
        0 <= j < n <= paths.len(),
        paths[j] == Some(p),
        opens_lane(paths, j),
    ensures
        first_on(paths, n, p) == Some(j),
    decreases n,
{
    if n - 1 > j {
        lemma_first_unique(paths, n - 1, p, j);
    }
}

/// Calls that modify the same file never run side by side.
pub proof fn law_same_file_shares_a_lane(paths: Seq<Option<Seq<char>>>, i: int, j: int)
    requires
        0 <= i < j < paths.len(),
        paths[i] is Some,
        paths[i] == paths[j],
    ensures
        lane_of(paths, i) == lane_of(paths, j),
{
    let p = paths[i]->0;
    lemma_first_on(paths, j, p);
    lemma_first_on(paths, i, p);
    let f = first_on(paths, j, p)->0;
    assert(first_on(paths, j, p) is Some);
    if f < i {
        lemma_first_unique(paths, i, p, f);
    } else if f > i {
        lemma_first_on(paths, f, p);
    }
}

/// Calls on different files, and calls that modify none, never wait for each
/// other.
pub proof fn law_other_calls_have_their_own_lanes(paths: Seq<Option<Seq<char>>>, i: int, j: int)
    requires
        0 <= i < j < paths.len(),
        paths[i] is None || paths[j] is None || paths[i] != paths[j],
    ensures
        lane_of(paths, i) != lane_of(paths, j),
{
    let a = lane_opener(paths, i);
    let b = lane_opener(paths, j);
    lemma_opener(paths, i);
    lemma_opener(paths, j);
    if a < b {
        lemma_lane_count_grows(paths, a, b);
    } else {
        lemma_lane_count_grows(paths, b, a);
    }
}

/// The call that opened the lane of the call `i`.
pub open spec fn lane_opener(paths: Seq<Option<Seq<char>>>, i: int) -> int {
    match paths[i] {
        Some(p) => match first_on(paths, i, p) {
            Some(j) => j,
            None => i,
        },
        None => i,
    }
}

proof fn lemma_opener(paths: Seq<Option<Seq<char>>>, i: int)
    requires
        0 <= i < paths.len(),
    ensures
        0 <= lane_opener(paths, i) <= i,
        opens_lane(paths, lane_opener(paths, i)),
        lane_of(paths, i) == lane_count(paths, lane_opener(paths, i)),
        paths[lane_opener(paths, i)] == paths[i],
        paths[i] is None ==> lane_opener(paths, i) == i,
{
    if let Some(p) = paths[i] {
        lemma_first_on(paths, i, p);
    }
}

/// Every call is in one lane: the lanes hold as many calls as were approved.
pub proof fn law_every_call_is_in_its_lane(
    calls: Seq<ToolCallV>,
    paths: Seq<Option<Seq<char>>>,
    n: int,
    i: int,
)
    requires
        0 <= i < n <= paths.len(),
        calls.len() == paths.len(),
    ensures
        0 <= lane_of(paths, i) < lane_count(paths, n),
        lane_calls(calls, paths, n, lane_of(paths, i)).contains(calls[i]),
    decreases n,
{
    lemma_lane_of_range(paths, i);
    lemma_lane_count_grows(paths, i + 1, n);
    let k = lane_of(paths, i);
    let lane = lane_calls(calls, paths, n, k);
    if i == n - 1 {
        assert(lane[lane.len() - 1] == calls[i]);
    } else {
        law_every_call_is_in_its_lane(calls, paths, n - 1, i);
        let before = lane_calls(calls, paths, n - 1, k);
        let x = choose|x: int| 0 <= x < before.len() && before[x] == calls[i];
        assert(lane[x] == calls[i]);
    }
}

proof fn lemma_lane_place(
    calls: Seq<ToolCallV>,
    paths: Seq<Option<Seq<char>>>,
    n: int,
    i: int,
)
    requires
        0 <= i < n <= paths.len(),
        calls.len() == paths.len(),
    ensures
        ({
            let k = lane_of(paths, i);
            let at = lane_calls(calls, paths, i, k).len() as int;
            &&& at < lane_calls(calls, paths, n, k).len()
            &&& lane_calls(calls, paths, n, k)[at] == calls[i]
        }),
    decreases n,
{
    if i < n - 1 {
        lemma_lane_place(calls, paths, n - 1, i);
    }
}

/// In a lane the calls stand in the order in which the model made them.
pub proof fn law_lanes_keep_the_order(
    calls: Seq<ToolCallV>,
    paths: Seq<Option<Seq<char>>>,
    i: int,
    j: int,
)
    requires
        0 <= i < j < paths.len(),
        calls.len() == paths.len(),
        paths[i] is Some,
        paths[i] == paths[j],
    ensures
        ({
            let lane = lane_calls(calls, paths, paths.len() as int, lane_of(paths, i));
            exists|a: int, b: int|
                0 <= a < b < lane.len() && #[trigger] lane[a] == calls[i] && #[trigger] lane[b]
                    == calls[j]
        }),
{
    law_same_file_shares_a_lane(paths, i, j);
    let n = paths.len() as int;
    let k = lane_of(paths, i);
    lemma_lane_place(calls, paths, n, i);
    lemma_lane_place(calls, paths, n, j);
    lemma_lane_place(calls, paths, j, i);
    let lane = lane_calls(calls, paths, n, k);
    let a = lane_calls(calls, paths, i, k).len() as int;
    let b = lane_calls(calls, paths, j, k).len() as int;
    assert(a < b);
    assert(lane[a] == calls[i] && lane[b] == calls[j]);
}

/// How many calls the first lanes hold.
pub open spec fn calls_in(
    calls: Seq<ToolCallV>,
    paths: Seq<Option<Seq<char>>>,
    n: int,
    lanes: int,
) -> int
    decreases lanes,
{
    if lanes <= 0 {
        0
    } else {
        calls_in(calls, paths, n, lanes - 1) + lane_calls(calls, paths, n, lanes - 1).len()
    }
}

proof fn lemma_calls_in(
    calls: Seq<ToolCallV>,
    paths: Seq<Option<Seq<char>>>,
    n: int,
    lanes: int,
)
    requires
        0 < n <= paths.len(),
        0 <= lanes,
    ensures
        calls_in(calls, paths, n, lanes) == calls_in(calls, paths, n - 1, lanes) + (if lane_of(
            paths,
            n - 1,
        ) < lanes && lane_of(paths, n - 1) >= 0 {
            1int
        } else {
            0
        }),
    decreases lanes,
{
    if lanes > 0 {
        lemma_calls_in(calls, paths, n, lanes - 1);
    }
}

proof fn lemma_empty_lanes(
    calls: Seq<ToolCallV>,
    paths: Seq<Option<Seq<char>>>,
    n: int,
    lanes: int,
)
    requires
        0 <= n <= paths.len(),
        lanes >= lane_count(paths, n),
    ensures
        calls_in(calls, paths, n, lanes) == calls_in(calls, paths, n, lane_count(paths, n)),
    decreases lanes,
{
    lemma_lane_count_grows(paths, 0, n);
    if lanes > lane_count(paths, n) {
        lemma_empty_lanes(calls, paths, n, lanes - 1);
        lemma_no_calls_yet(calls, paths, n, lanes - 1);
    }
}

/// No call runs twice, and none is left out: the lanes hold as many calls as there
/// are.
pub proof fn law_lanes_hold_each_call_once(
    calls: Seq<ToolCallV>,
    paths: Seq<Option<Seq<char>>>,
    n: int,
)
    requires
        0 <= n <= paths.len(),
        calls.len() == paths.len(),
    ensures
        calls_in(calls, paths, n, lane_count(paths, n)) == n,
    decreases n,
{
    if n > 0 {
        law_lanes_hold_each_call_once(calls, paths, n - 1);
        lemma_lane_of_range(paths, n - 1);
        lemma_lane_count_grows(paths, n - 1, n);
        lemma_lane_count_grows(paths, 0, n);
        lemma_calls_in(calls, paths, n, lane_count(paths, n));
        lemma_empty_lanes(calls, paths, n - 1, lane_count(paths, n));
    }
}

} // verus!
