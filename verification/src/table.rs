//! Tables that are kept in the order of their keys, each key once.
use vstd::prelude::*;
use crate::text::{comes_before, lemma_order_total, lemma_order_transitive, precedes, same};

verus! {

/// What the rows of a table stand for.
pub open spec fn row_views<T: View>(v: Seq<(String, T)>) -> Seq<(Seq<char>, T::V)> {
    v.map_values(|r: (String, T)| (r.0@, r.1@))
}

/// The keys come in order, each of them once.
pub open spec fn in_key_order<U>(rows: Seq<(Seq<char>, U)>) -> bool {
    forall|i: int, j: int|
        0 <= i < j < rows.len() ==> precedes((#[trigger] rows[i]).0, (#[trigger] rows[j]).0)
}

/// The first row whose key does not come before `key`.
pub open spec fn spot<U>(rows: Seq<(Seq<char>, U)>, key: Seq<char>) -> int
    decreases rows.len(),
{
    if rows.len() > 0 && precedes(rows[0].0, key) {
        1 + spot(rows.drop_first(), key)
    } else {
        0
    }
}

/// The value under a key.
pub open spec fn row_with<U>(rows: Seq<(Seq<char>, U)>, key: Seq<char>) -> Option<U> {
    let p = spot(rows, key);
    if p < rows.len() && rows[p].0 == key {
        Some(rows[p].1)
    } else {
        None
    }
}

/// The table with a value under a key, in place of the one that was there.
pub open spec fn with_row<U>(rows: Seq<(Seq<char>, U)>, key: Seq<char>, value: U) -> Seq<
    (Seq<char>, U),
> {
    let p = spot(rows, key);
    if row_with(rows, key) is Some {
        rows.update(p, (key, value))
    } else {
        rows.insert(p, (key, value))
    }
}

proof fn lemma_spot<U>(rows: Seq<(Seq<char>, U)>, key: Seq<char>)
    ensures
        0 <= spot(rows, key) <= rows.len(),
        forall|i: int| 0 <= i < spot(rows, key) ==> precedes((#[trigger] rows[i]).0, key),
        spot(rows, key) < rows.len() ==> !precedes(rows[spot(rows, key)].0, key),
    decreases rows.len(),
{
    if rows.len() > 0 && precedes(rows[0].0, key) {
        let rest = rows.drop_first();
        lemma_spot(rest, key);
        assert forall|i: int| 0 <= i < spot(rows, key) implies precedes(
            (#[trigger] rows[i]).0,
            key,
        ) by {
            if i > 0 {
                assert(rest[i - 1] == rows[i]);
            }
        }
    }
}

/// Finds the place of a key; see [`spot`].
pub fn find_spot<T: View>(rows: &Vec<(String, T)>, key: &str) -> (p: usize)
    ensures
        p == spot(row_views(rows@), key@),
        p <= rows@.len(),
{
    let ghost rs = row_views(rows@);
    let mut i: usize = 0;
    assert(rs.skip(0) =~= rs);
    while i < rows.len() && comes_before(rows[i].0.as_str(), key)
        invariant
            i <= rows@.len(),
            rs == row_views(rows@),
            spot(rs, key@) == i + spot(rs.skip(i as int), key@),
        decreases rows@.len() - i,
    {
        assert(rs.skip(i as int)[0] == rs[i as int]);
        assert(rs.skip(i as int).drop_first() =~= rs.skip(i + 1));
        i += 1;
    }
    assert(i < rows@.len() ==> rs.skip(i as int)[0] == rs[i as int]);
    i
}

/// Puts a value under a key; see [`with_row`].
pub fn put_row<T: View>(rows: &mut Vec<(String, T)>, key: String, value: T)
    ensures
        row_views(final(rows)@) == with_row(row_views(old(rows)@), key@, value@),
{
    let ghost rs = row_views(rows@);
    let ghost row = (key@, value@);
    let p: usize = find_spot(rows, key.as_str());
    if p < rows.len() && same(rows[p].0.as_str(), key.as_str()) {
        assert(rs[p as int] == (rows@[p as int].0@, rows@[p as int].1@));
        rows.set(p, (key, value));
        assert(row_views(rows@) =~= rs.update(p as int, row));
    } else {
        assert(p < rows@.len() ==> rs[p as int] == (rows@[p as int].0@, rows@[p as int].1@));
        rows.insert(p, (key, value));
        assert(row_views(rows@) =~= rs.insert(p as int, row));
    }
}

/// Looks a key up; see [`row_with`].
pub fn get_row<'a, T: View>(rows: &'a Vec<(String, T)>, key: &str) -> (r: Option<&'a T>)
    ensures
        match r {
            Some(v) => row_with(row_views(rows@), key@) == Some(v@),
            None => row_with(row_views(rows@), key@) is None,
        },
{
    let p: usize = find_spot(rows, key);
    if p < rows.len() {
        assert(row_views(rows@)[p as int] == (rows@[p as int].0@, rows@[p as int].1@));
        if same(rows[p].0.as_str(), key) {
            return Some(&rows[p].1);
        }
    }
    None
}

/// Takes the value under a key out of the table.
pub fn take_row<T: View>(rows: &mut Vec<(String, T)>, key: &str) -> (r: Option<T>)
    ensures
        match r {
            Some(v) => row_with(row_views(old(rows)@), key@) == Some(v@) && row_views(final(rows)@)
                == row_views(old(rows)@).remove(spot(row_views(old(rows)@), key@)),
            None => row_with(row_views(old(rows)@), key@) is None && final(rows)@ == old(rows)@,
        },
{
    let ghost rs = row_views(rows@);
    let p: usize = find_spot(rows, key);
    if p < rows.len() {
        assert(rs[p as int] == (rows@[p as int].0@, rows@[p as int].1@));
        if same(rows[p].0.as_str(), key) {
            let (k, v) = rows.remove(p);
            assert(row_views(rows@) =~= rs.remove(p as int));
            return Some(v);
        }
    }
    None
}

proof fn lemma_spot_is<U>(rows: Seq<(Seq<char>, U)>, key: Seq<char>, p: int)
    requires
        0 <= p <= rows.len(),
        forall|i: int| 0 <= i < p ==> precedes((#[trigger] rows[i]).0, key),
        p < rows.len() ==> !precedes(rows[p].0, key),
    ensures
        spot(rows, key) == p,
{
    lemma_spot(rows, key);
    let q = spot(rows, key);
    if q < p {
        assert(precedes(rows[q].0, key));
    } else if p < q {
        assert(precedes(rows[p].0, key));
    }
}

/// To take a value out and to put another one back under its key is to replace
/// it.
pub proof fn lemma_taken_and_put<U>(rows: Seq<(Seq<char>, U)>, key: Seq<char>, value: U)
    requires
        in_key_order(rows),
        row_with(rows, key) is Some,
    ensures
        with_row(rows.remove(spot(rows, key)), key, value) == with_row(rows, key, value),
{
    lemma_spot(rows, key);
    let p = spot(rows, key);
    let rest = rows.remove(p);
    assert forall|i: int| 0 <= i < p implies precedes((#[trigger] rest[i]).0, key) by {
        assert(rest[i] == rows[i]);
    }
    if p < rest.len() {
        assert(rest[p] == rows[p + 1]);
        assert(precedes(rows[p].0, rows[p + 1].0));
        lemma_order_total(key, rest[p].0);
    }
    lemma_spot_is(rest, key, p);
    assert(rest.insert(p, (key, value)) =~= rows.update(p, (key, value)));
}

/// A value that was put is found under its key, and the other keys keep theirs;
/// the table stays in order.
pub proof fn law_row_is_put<U>(
    rows: Seq<(Seq<char>, U)>,
    key: Seq<char>,
    value: U,
    other: Seq<char>,
)
    requires
        in_key_order(rows),
    ensures
        in_key_order(with_row(rows, key, value)),
        row_with(with_row(rows, key, value), key) == Some(value),
        other != key ==> row_with(with_row(rows, key, value), other) == row_with(rows, other),
{
    lemma_spot(rows, key);
    let p = spot(rows, key);
    let after = with_row(rows, key, value);
    let there = row_with(rows, key) is Some;
    if p < rows.len() && !there {
        lemma_order_total(rows[p].0, key);
    }
    lemma_order_total(key, key);
    assert forall|i: int, j: int| 0 <= i < j < after.len() implies precedes(
        (#[trigger] after[i]).0,
        (#[trigger] after[j]).0,
    ) by {
        if there {
            assert(precedes(rows[i].0, rows[j].0));
        } else {
            let oi = if i < p {
                i
            } else {
                i - 1
            };
            let oj = if j < p {
                j
            } else {
                j - 1
            };
            if i == p {
                if oj > p {
                    assert(precedes(rows[p].0, rows[oj].0));
                    lemma_order_transitive(key, rows[p].0, rows[oj].0);
                }
            } else if j == p {
                assert(precedes(rows[i].0, key));
            } else {
                assert(precedes(rows[oi].0, rows[oj].0));
            }
        }
    }
    assert forall|i: int| 0 <= i < p implies precedes((#[trigger] after[i]).0, key) by {
        assert(after[i] == rows[i]);
    }
    assert(after[p] == (key, value));
    lemma_spot_is(after, key, p);
    if other != key {
        lemma_spot(rows, other);
        lemma_order_total(key, other);
        let q = spot(rows, other);
        if there {
            assert forall|i: int| 0 <= i < q implies precedes((#[trigger] after[i]).0, other) by {
                assert(after[i].0 == rows[i].0);
            }
            if q < after.len() {
                assert(after[q].0 == rows[q].0);
            }
            lemma_spot_is(after, other, q);
        } else if precedes(key, other) {
            // the place of `other` lies behind that of `key`
            if q < p {
                assert(precedes(rows[q].0, key));
                lemma_order_transitive(rows[q].0, key, other);
            }
            assert forall|i: int| 0 <= i < q + 1 implies precedes((#[trigger] after[i]).0, other) by {
                if i < p {
                    assert(after[i] == rows[i]);
                } else if i > p {
                    assert(after[i] == rows[i - 1]);
                }
            }
            if q + 1 < after.len() {
                assert(after[q + 1] == rows[q]);
            }
            lemma_spot_is(after, other, q + 1);
        } else {
            assert(precedes(other, key));
            if p < q {
                assert(precedes(rows[p].0, other));
                lemma_order_transitive(rows[p].0, other, key);
            }
            assert forall|i: int| 0 <= i < q implies precedes((#[trigger] after[i]).0, other) by {
                assert(after[i] == rows[i]);
            }
            if q < after.len() {
                if q < p {
                    assert(after[q] == rows[q]);
                } else {
                    assert(after[q] == (key, value));
                    lemma_order_total(other, key);
                }
            }
            lemma_spot_is(after, other, q);
            if q == p && p < rows.len() && rows[p].0 == other {
                // `other` would come behind `key`
                assert(precedes(key, rows[p].0));
            }
        }
    }
}

} // verus!
