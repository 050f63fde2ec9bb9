//! The list of the snapshots.
use vstd::prelude::*;
use crate::text::{
    align_right, cat2, cat7, decimal, ends, holds, law_columns_hold_their_text, occurs_at,
    right_aligned, size_text, texts,
};

verus! {

/// A snapshot of the work tree.
#[derive(Debug)]
pub struct SnapshotEntry {
    pub short_id: String,
    pub age: String,
    pub label: String,
    pub changed_files: Vec<String>,
}

/// The lines of a snapshot: its number, from one on, and the files it changed.
pub open spec fn entry_lines(e: SnapshotEntry, n: nat) -> Seq<Seq<char>> {
    seq![
        right_aligned(decimal(n), 2) + ". "@ + e.short_id@ + "  "@ + e.age@ + "  — "@ + e.label@,
    ] + texts(e.changed_files@).map_values(|f: Seq<char>| "    "@ + f)
}

/// The lines of some snapshots.
pub open spec fn all_entry_lines(entries: Seq<SnapshotEntry>) -> Seq<Seq<char>>
    decreases entries.len(),
{
    if entries.len() == 0 {
        Seq::empty()
    } else {
        all_entry_lines(entries.drop_last()) + entry_lines(entries.last(), entries.len())
    }
}

/// The list of the snapshots.
pub open spec fn snapshot_lines(entries: Seq<SnapshotEntry>) -> Seq<Seq<char>> {
    if entries.len() == 0 {
        seq!["no snapshots yet (one is taken before each run that edits files)"@]
    } else {
        all_entry_lines(entries).push("restore with /rollback <n|id>"@)
    }
}

/// Lists the snapshots; see [`snapshot_lines`].
pub fn run_snapshots(entries: &Vec<SnapshotEntry>) -> (r: Vec<String>)
    ensures
        texts(r@) == snapshot_lines(entries@),
{
    let mut out: Vec<String> = Vec::new();
    if entries.len() == 0 {
        out.push("no snapshots yet (one is taken before each run that edits files)".to_owned());
        assert(texts(out@) =~= snapshot_lines(entries@));
        return out;
    }
    let mut i: usize = 0;
    assert(entries@.take(0) =~= Seq::empty());
    assert(texts(out@) =~= Seq::empty());
    while i < entries.len()
        invariant
            i <= entries@.len(),
            texts(out@) == all_entry_lines(entries@.take(i as int)),
        decreases entries@.len() - i,
    {
        assert(entries@.take(i + 1).drop_last() =~= entries@.take(i as int));
        let e = &entries[i];
        let ghost before = texts(out@);
        let line = cat7(
            align_right(size_text(i + 1).as_str(), 2).as_str(),
            ". ",
            e.short_id.as_str(),
            "  ",
            e.age.as_str(),
            "  — ",
            e.label.as_str(),
        );
        let ghost lv = line@;
        out.push(line);
        assert(texts(out@) =~= before.push(lv));
        let ghost files = texts(e.changed_files@).map_values(|f: Seq<char>| "    "@ + f);
        let ghost at = texts(out@);
        let mut k: usize = 0;
        assert(at + files.take(0) =~= at);
        while k < e.changed_files.len()
            invariant
                k <= e.changed_files@.len(),
                files == texts(e.changed_files@).map_values(|f: Seq<char>| "    "@ + f),
                texts(out@) == at + files.take(k as int),
            decreases e.changed_files@.len() - k,
        {
            let ghost now = texts(out@);
            out.push(cat2("    ", e.changed_files[k].as_str()));
            assert(texts(out@) =~= now.push(files[k as int]));
            assert((at + files.take(k as int)).push(files[k as int]) =~= at + files.take(k + 1));
            k += 1;
        }
        assert(files.take(k as int) =~= files);
        assert(texts(out@) =~= before + entry_lines(*e, (i + 1) as nat));
        i += 1;
    }
    assert(entries@.take(i as int) =~= entries@);
    let ghost before = texts(out@);
    out.push("restore with /rollback <n|id>".to_owned());
    assert(texts(out@) =~= before.push("restore with /rollback <n|id>"@));
    out
}

/// The snapshots are listed in order, each under its number, and every file that one
/// changed is listed under it.
pub proof fn law_every_snapshot_is_listed(entries: Seq<SnapshotEntry>, i: int, k: int)
    requires
        0 <= i < entries.len(),
    ensures
        ({
            let all = all_entry_lines(entries);
            let at = all_entry_lines(entries.take(i)).len() as int;
            let e = entries[i];
            &&& at + e.changed_files@.len() < all.len()
            &&& holds(all[at], decimal((i + 1) as nat) + ". "@ + e.short_id@)
            &&& ends(all[at], e.label@)
            &&& 0 <= k < e.changed_files@.len() ==> ends(all[at + 1 + k], e.changed_files@[k]@)
        }),
    decreases entries.len(),
{
    let front = entries.drop_last();
    let all = all_entry_lines(entries);
    let e = entries[i];
    if i < front.len() {
        law_every_snapshot_is_listed(front, i, k);
        assert(front.take(i) =~= entries.take(i));
    } else {
        assert(entries.take(i) =~= front);
        let at = all_entry_lines(front).len() as int;
        let own = entry_lines(e, entries.len());
        assert(all[at] == own[0]);
        let number = right_aligned(decimal(entries.len()), 2);
        let n = decimal(entries.len()) + ". "@ + e.short_id@;
        law_columns_hold_their_text(decimal(entries.len()), 2, 0);
        let pad = number.len() - decimal(entries.len()).len();
        assert(number.subrange(pad, number.len() as int) =~= decimal(entries.len()));
        assert(all[at].subrange(pad, pad + n.len()) =~= n);
        assert(occurs_at(all[at], n, pad));
        assert(all[at].subrange(all[at].len() - e.label@.len(), all[at].len() as int)
            =~= e.label@);
        if 0 <= k < e.changed_files@.len() {
            let f = e.changed_files@[k]@;
            assert(all[at + 1 + k] == own[1 + k]);
            let line = "    "@ + f;
            assert(own[1 + k] == line);
            assert(line.subrange(line.len() - f.len(), line.len() as int) =~= f);
        }
    }
}

/// The list is that of all the snapshots with a word on how to go back; where there are
/// none, that is said.
pub proof fn law_snapshots_are_all_listed(entries: Seq<SnapshotEntry>)
    ensures
        entries.len() > 0 ==> snapshot_lines(entries).drop_last() == all_entry_lines(entries),
        entries.len() == 0 ==> snapshot_lines(entries).len() == 1,
{
    if entries.len() > 0 {
        assert(snapshot_lines(entries).drop_last() =~= all_entry_lines(entries));
    }
}

} // verus!
