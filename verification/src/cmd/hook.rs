//! The hook that reviews each commit: when it may be written, and when it may be
//! removed. A hook that somebody else wrote is left alone.
use vstd::prelude::*;
use crate::ai::setting_view;
use crate::paths::{in_dir, join_path};
use crate::text::{cat2, contains, holds, same, texts};

verus! {

/// How a hook of ours is told from one that is not.
pub const MARKER: &'static str = "installed by `sirbone hook install`";

/// What the command does.
#[derive(Clone, Copy, Debug, PartialEq, Eq, Structural)]
pub enum HookAction {
    Install,
    Uninstall,
    Usage,
}

/// What the command does for a word behind it.
pub fn run_hook(action: Option<&str>) -> (r: HookAction)
    ensures
        r == (if setting_view(action) == Some("install"@) {
            HookAction::Install
        } else if setting_view(action) == Some("uninstall"@) {
            HookAction::Uninstall
        } else {
            HookAction::Usage
        }),
{
    match action {
        Some(a) => if same(a, "install") {
            HookAction::Install
        } else if same(a, "uninstall") {
            HookAction::Uninstall
        } else {
            HookAction::Usage
        },
        None => HookAction::Usage,
    }
}

/// The file of the hook.
pub fn hook_path(dir: &str) -> (r: String)
    ensures
        r@ == in_dir(dir@, "pre-commit"@),
{
    join_path(dir, "pre-commit")
}

/// The directory of the hooks, from what git says of it.
pub fn hooks_dir(cwd: &str, git_says: &str) -> (r: String)
    ensures
        r@ == in_dir(cwd@, crate::text::trimmed(git_says@)),
{
    join_path(cwd, crate::text::trim(git_says).as_str())
}

/// The hook may be written: there is none yet, or it is ours.
pub open spec fn may_install(existing: Seq<char>) -> bool {
    existing.len() == 0 || holds(existing, MARKER@)
}

/// Decides whether the hook may be written; `existing` is what its file holds,
/// empty where there is none.
pub fn install(dir: &str, existing: &str) -> (r: Result<String, String>)
    ensures
        match r {
            Ok(p) => may_install(existing@) && p@ == in_dir(dir@, "pre-commit"@),
            Err(e) => !may_install(existing@) && e@ == in_dir(dir@, "pre-commit"@)
                + " already exists and was not written by sirbone — move it aside, or call `sirbone --review-only` from it yourself"@,
        },
{
    let path = hook_path(dir);
    if !existing.is_empty() && !contains(existing, MARKER) {
        return Err(
            cat2(
                path.as_str(),
                " already exists and was not written by sirbone — move it aside, or call `sirbone --review-only` from it yourself",
            ),
        );
    }
    Ok(path)
}

/// Decides whether the hook is to be removed: `Ok(None)` where there is none, an
/// error where somebody else wrote it.
pub fn uninstall(dir: &str, existing: Option<&str>) -> (r: Result<Option<String>, String>)
    ensures
        match setting_view(existing) {
            None => r matches Ok(None),
            Some(t) => if holds(t, MARKER@) {
                r matches Ok(Some(p)) && p@ == in_dir(dir@, "pre-commit"@)
            } else {
                r matches Err(e) && e@ == in_dir(dir@, "pre-commit"@)
                    + " was not written by sirbone — leaving it alone"@
            },
        },
{
    match existing {
        None => Ok(None),
        Some(t) => {
            let path = hook_path(dir);
            if !contains(t, MARKER) {
                return Err(
                    cat2(path.as_str(), " was not written by sirbone — leaving it alone"),
                );
            }
            Ok(Some(path))
        },
    }
}

/// What the command says where it does not know what to do.
pub const HOOK_USAGE: &'static str = "usage: sirbone hook install | sirbone hook uninstall";

/// What is said of what the hook does.
pub const HOOK_NOTE: &'static str = "it reviews the staged diff on every commit and blocks only on an explicit \
BLOCK verdict — `git commit --no-verify` skips it once, SIRBONE_HOOK=off always";

/// What is said of a hook that was written.
pub fn installed_lines(path: &str) -> (r: Vec<String>)
    ensures
        texts(r@) == seq!["installed "@ + path@, HOOK_NOTE@],
{
    let mut out: Vec<String> = Vec::new();
    out.push(cat2("installed ", path));
    out.push(HOOK_NOTE.to_owned());
    assert(texts(out@) =~= seq!["installed "@ + path@, HOOK_NOTE@]);
    out
}

/// What is said of a hook that was removed, or of one that was not there.
pub fn removed_line(dir: &str, removed: Option<&str>) -> (r: String)
    ensures
        r@ == (match setting_view(removed) {
            Some(p) => "removed "@ + p,
            None => "no sirbone hook in "@ + dir@,
        }),
{
    match removed {
        Some(p) => cat2("removed ", p),
        None => cat2("no sirbone hook in ", dir),
    }
}

/// A hook that carries the mark can be written again and removed; one that does
/// not can be neither.
pub proof fn law_foreign_hook_is_left_alone(existing: Seq<char>)
    requires
        existing.len() > 0,
    ensures
        may_install(existing) <==> holds(existing, MARKER@),
{
}

} // verus!
