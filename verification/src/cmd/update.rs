//! The update: where the program that does it may lie, and what is said where it
//! lies nowhere.
use vstd::prelude::*;
use crate::paths::{beside, in_dir, join_path, rename};
use crate::text::{cat3, texts};

verus! {

/// Where the program may lie: beside the running one, then in the directories of
/// the search path.
pub open spec fn updater_places(exe: Seq<char>, dirs: Seq<Seq<char>>, name: Seq<char>) -> Seq<
    Seq<char>,
> {
    seq![beside(exe, name)] + dirs.map_values(|d: Seq<char>| in_dir(d, name))
}

/// Lists where the program may lie; see [`updater_places`].
pub fn updater_candidates(exe: &str, dirs: &Vec<String>, name: &str) -> (r: Vec<String>)
    ensures
        texts(r@) == updater_places(exe@, texts(dirs@), name@),
{
    let mut out: Vec<String> = Vec::new();
    out.push(rename(exe, name));
    let ghost first = seq![beside(exe@, name@)];
    let ghost all = texts(dirs@).map_values(|d: Seq<char>| in_dir(d, name@));
    let mut i: usize = 0;
    assert(texts(out@) =~= first + all.take(0));
    while i < dirs.len()
        invariant
            i <= dirs@.len(),
            all == texts(dirs@).map_values(|d: Seq<char>| in_dir(d, name@)),
            texts(out@) == first + all.take(i as int),
        decreases dirs@.len() - i,
    {
        let ghost now = texts(out@);
        out.push(join_path(dirs[i].as_str(), name));
        assert(texts(out@) =~= now.push(all[i as int]));
        assert((first + all.take(i as int)).push(all[i as int]) =~= first + all.take(i + 1));
        i += 1;
    }
    assert(all.take(i as int) =~= all);
    out
}

/// What is said behind the name of a program that lies nowhere.
pub const UPDATE_HELP: &'static str = "` not found next to this binary.\n\n\
It ships with the shell/PowerShell installers only. Upgrade with whatever installed sirbone:\n  \
curl --proto '=https' --tlsv1.2 -LsSf \
https://github.com/automataIA/sir-bone-rs/releases/latest/download/sir-bone-rs-installer.sh | sh\n  \
cargo install sir-bone-rs --locked         (built from source)\n  \
cargo binstall sir-bone-rs                 (prebuilt, no toolchain)";

/// What is said where the program lies nowhere.
pub fn updater_missing(name: &str) -> (r: String)
    ensures
        r@ == "`"@ + name@ + UPDATE_HELP@,
{
    cat3("`", name, UPDATE_HELP)
}

/// What is said where the program failed.
pub fn updater_failed(path: &str, status: &str) -> (r: String)
    ensures
        r@ == path@ + " exited with "@ + status@,
{
    cat3(path, " exited with ", status)
}

/// The program is looked for beside the running one first, and then in every directory of
/// the search path, in order.
pub proof fn law_every_place_is_looked_at(
    exe: Seq<char>,
    dirs: Seq<Seq<char>>,
    name: Seq<char>,
    i: int,
)
    requires
        0 <= i < dirs.len(),
    ensures
        updater_places(exe, dirs, name).len() == dirs.len() + 1,
        updater_places(exe, dirs, name)[0] == beside(exe, name),
        updater_places(exe, dirs, name)[i + 1] == in_dir(dirs[i], name),
{
}

} // verus!
