//! The instructions of a project: the files of a given name in the directories
//! above the working directory, and the user's own.
use vstd::prelude::*;
use crate::ai::setting_view;
use crate::paths::{ancestors, ancestors_of, in_dir, join_path};
use crate::text::{
    holds, join, joined, law_joined_parts_stand_in_order, texts, trim, trimmed,
};

verus! {

/// The files that may hold instructions, in the order in which they are read:
/// from the root down to the working directory, then the user's own.
pub open spec fn candidates(
    cwd: Seq<char>,
    filename: Seq<char>,
    home: Option<Seq<char>>,
) -> Seq<Seq<char>> {
    let above = ancestors(cwd).map_values(|d: Seq<char>| in_dir(d, filename));
    match home {
        Some(h) => above.push(in_dir(in_dir(h, ".config/sirbone"@), filename)),
        None => above,
    }
}

/// Lists the files that may hold instructions; see [`candidates`].
pub fn instruction_files(cwd: &str, filename: &str, home: Option<&str>) -> (r: Vec<String>)
    ensures
        texts(r@) == candidates(cwd@, filename@, setting_view(home)),
{
    let dirs = ancestors_of(cwd);
    let ghost above = ancestors(cwd@).map_values(|d: Seq<char>| in_dir(d, filename@));
    let mut out: Vec<String> = Vec::new();
    let mut i: usize = 0;
    assert(texts(out@) =~= above.take(0));
    while i < dirs.len()
        invariant
            i <= dirs@.len(),
            texts(dirs@) == ancestors(cwd@),
            above == ancestors(cwd@).map_values(|d: Seq<char>| in_dir(d, filename@)),
            texts(out@) == above.take(i as int),
        decreases dirs@.len() - i,
    {
        assert(texts(dirs@)[i as int] == dirs@[i as int]@);
        let ghost before = texts(out@);
        let f = join_path(dirs[i].as_str(), filename);
        let ghost fv = f@;
        out.push(f);
        assert(texts(out@) =~= before.push(fv));
        assert(above.take(i as int).push(above[i as int]) =~= above.take(i + 1));
        i += 1;
    }
    assert(texts(dirs@).len() == dirs@.len());
    assert(above.take(i as int) =~= above);
    if let Some(h) = home {
        let ghost before = texts(out@);
        let f = join_path(join_path(h, ".config/sirbone").as_str(), filename);
        let ghost fv = f@;
        out.push(f);
        assert(texts(out@) =~= before.push(fv));
    }
    out
}

/// The texts that are more than white space.
pub open spec fn not_blank(parts: Seq<Seq<char>>) -> Seq<Seq<char>>
    decreases parts.len(),
{
    if parts.len() == 0 {
        Seq::empty()
    } else {
        let before = not_blank(parts.drop_last());
        if trimmed(parts.last()).len() > 0 {
            before.push(parts.last())
        } else {
            before
        }
    }
}

/// Puts the instructions together, from what the files hold that could be read:
/// blank ones are left out.
pub fn load_instructions(contents: &Vec<String>) -> (r: String)
    ensures
        r@ == joined(not_blank(texts(contents@)), "\n\n"@),
{
    let ghost cs = texts(contents@);
    let mut parts: Vec<String> = Vec::new();
    let mut i: usize = 0;
    assert(cs.take(0) =~= Seq::empty());
    assert(texts(parts@) =~= Seq::empty());
    while i < contents.len()
        invariant
            i <= contents@.len(),
            cs == texts(contents@),
            texts(parts@) == not_blank(cs.take(i as int)),
        decreases contents@.len() - i,
    {
        assert(cs.take(i + 1).drop_last() =~= cs.take(i as int));
        assert(cs.take(i + 1).last() == contents@[i as int]@);
        let ghost before = texts(parts@);
        if !trim(contents[i].as_str()).as_str().is_empty() {
            parts.push(contents[i].clone());
            assert(texts(parts@) =~= before.push(contents@[i as int]@));
        }
        i += 1;
    }
    assert(cs.take(i as int) =~= cs);
    join(&parts, "\n\n")
}

/// A blank file changes nothing.
pub proof fn law_blank_files_are_left_out(parts: Seq<Seq<char>>, blank: Seq<char>)
    requires
        trimmed(blank).len() == 0,
    ensures
        not_blank(parts.push(blank)) == not_blank(parts),
{
    assert(parts.push(blank).drop_last() =~= parts);
}

/// Every file that says something is in the instructions, whole, and the files of two
/// lists follow each other.
pub proof fn law_every_file_is_in_the_instructions(a: Seq<Seq<char>>, b: Seq<Seq<char>>, i: int)
    ensures
        not_blank(a + b) == not_blank(a) + not_blank(b),
        0 <= i < a.len() && trimmed(a[i]).len() > 0 ==> not_blank(a).contains(a[i]) && holds(
            joined(not_blank(a), "\n\n"@),
            a[i],
        ),
    decreases a.len() + b.len(),
{
    if b.len() > 0 {
        law_every_file_is_in_the_instructions(a, b.drop_last(), i);
        assert((a + b).drop_last() =~= a + b.drop_last());
        assert((a + b).last() == b.last());
        let (x, y) = (not_blank(a), not_blank(b.drop_last()));
        if trimmed(b.last()).len() > 0 {
            assert((x + y).push(b.last()) =~= x + y.push(b.last()));
        }
    } else {
        assert(a + b =~= a);
        assert(not_blank(a) + not_blank(b) =~= not_blank(a));
        if 0 <= i < a.len() && trimmed(a[i]).len() > 0 {
            lemma_kept(a, i);
            let all = not_blank(a);
            let k = choose|k: int| 0 <= k < all.len() && all[k] == a[i];
            law_joined_parts_stand_in_order(all, "\n\n"@, k);
        }
    }
}

proof fn lemma_kept(parts: Seq<Seq<char>>, i: int)
    requires
        0 <= i < parts.len(),
        trimmed(parts[i]).len() > 0,
    ensures
        not_blank(parts).contains(parts[i]),
    decreases parts.len(),
{
    let all = not_blank(parts);
    if i == parts.len() - 1 {
        assert(all[all.len() - 1] == parts[i]);
    } else {
        lemma_kept(parts.drop_last(), i);
        let before = not_blank(parts.drop_last());
        let k = choose|k: int| 0 <= k < before.len() && before[k] == parts[i];
        assert(all[k] == parts[i]);
    }
}

/// Every directory down to the working one may hold instructions, and so may the user's
/// own, which comes last.
pub proof fn law_every_directory_is_looked_in(
    cwd: Seq<char>,
    filename: Seq<char>,
    home: Option<Seq<char>>,
    i: int,
)
    requires
        0 <= i < ancestors(cwd).len(),
    ensures
        candidates(cwd, filename, home)[i] == in_dir(ancestors(cwd)[i], filename),
        home is None ==> candidates(cwd, filename, home).len() == ancestors(cwd).len(),
        home is Some ==> candidates(cwd, filename, home).len() == ancestors(cwd).len() + 1,
        home is Some ==> candidates(cwd, filename, home).last() == in_dir(
            in_dir(home->0, ".config/sirbone"@),
            filename,
        ),
{
}

} // verus!
