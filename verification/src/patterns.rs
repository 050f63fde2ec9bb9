//! Regular expressions, and the globs of the configuration.
use vstd::prelude::*;
use crate::text::to_chars;

verus! {

/// What the `regex` crate makes of a pattern and a text: the text before the
/// leftmost match, the match, and the text behind it; `None` where nothing
/// matches, or where the pattern is no regular expression.
pub uninterp spec fn regex_parts(pattern: Seq<char>, text: Seq<char>) -> Option<
    (Seq<char>, Seq<char>, Seq<char>),
>;

/// Calls `regex::Regex::new` and `Regex::find`. The result depends on the
/// pattern and the text alone, and its three parts make up the text.
#[verifier::external_body]
pub(crate) fn find_parts(pattern: &str, text: &str) -> (r: Option<(String, String, String)>)
    ensures
        match r {
            Some((before, found, behind)) => regex_parts(pattern@, text@) == Some(
                (before@, found@, behind@),
            ) && before@ + found@ + behind@ == text@,
            None => regex_parts(pattern@, text@) is None,
        },
{
    let found = regex::Regex::new(pattern).ok()?.find(text)?;
    Some((
        text[..found.start()].to_string(),
        found.as_str().to_string(),
        text[found.end()..].to_string(),
    ))
}

/// What the first two groups of a pattern hold in each of its matches in a text,
/// from left to right; a group that took no part holds nothing.
pub uninterp spec fn regex_groups(pattern: Seq<char>, text: Seq<char>) -> Seq<
    (Seq<char>, Seq<char>),
>;

/// What some pairs of texts stand for.
pub open spec fn pairs_view(v: Seq<(String, String)>) -> Seq<(Seq<char>, Seq<char>)> {
    v.map_values(|p: (String, String)| (p.0@, p.1@))
}

/// Calls `regex::Regex::new` and `Regex::captures_iter`, and takes the first two
/// groups of each match. The result depends on the pattern and the text alone;
/// a pattern that is no regular expression matches nowhere.
#[verifier::external_body]
pub(crate) fn find_groups(pattern: &str, text: &str) -> (r: Vec<(String, String)>)
    ensures
        pairs_view(r@) == regex_groups(pattern@, text@),
{
    let Ok(re) = regex::Regex::new(pattern) else {
        return Vec::new();
    };
    let group = |c: &regex::Captures, i: usize| c.get(i).map_or("", |m| m.as_str()).to_string();
    re.captures_iter(text).map(|c| (group(&c, 1), group(&c, 2))).collect()
}

/// The glob matches the text: each `*` stands for any characters, every other
/// character for itself.
pub open spec fn globbed(glob: Seq<char>, text: Seq<char>) -> bool
    decreases glob.len() + text.len(),
{
    if glob.len() == 0 {
        text.len() == 0
    } else if glob[0] == '*' {
        globbed(glob.drop_first(), text) || (text.len() > 0 && globbed(glob, text.drop_first()))
    } else {
        text.len() > 0 && text[0] == glob[0] && globbed(glob.drop_first(), text.drop_first())
    }
}

fn glob_from(glob: &Vec<char>, text: &Vec<char>, i: usize, k: usize) -> (b: bool)
    requires
        i <= glob@.len(),
        k <= text@.len(),
    ensures
        b == globbed(glob@.skip(i as int), text@.skip(k as int)),
    decreases glob@.len() - i + text@.len() - k,
{
    let ghost g = glob@.skip(i as int);
    let ghost t = text@.skip(k as int);
    if i == glob.len() {
        return k == text.len();
    }
    assert(g.drop_first() =~= glob@.skip(i + 1));
    if glob[i] == '*' {
        if glob_from(glob, text, i + 1, k) {
            return true;
        }
        if k == text.len() {
            return false;
        }
        assert(t.drop_first() =~= text@.skip(k + 1));
        glob_from(glob, text, i, k + 1)
    } else {
        if k == text.len() || text[k] != glob[i] {
            return false;
        }
        assert(t.drop_first() =~= text@.skip(k + 1));
        glob_from(glob, text, i + 1, k + 1)
    }
}

/// Decides [`globbed`].
pub fn glob_matches(glob: &str, text: &str) -> (b: bool)
    ensures
        b == globbed(glob@, text@),
{
    let g = to_chars(glob);
    let t = to_chars(text);
    assert(g@.skip(0) =~= g@);
    assert(t@.skip(0) =~= t@);
    glob_from(&g, &t, 0, 0)
}

/// A glob without a star matches itself and nothing else.
pub proof fn law_plain_globs_match_themselves(glob: Seq<char>, text: Seq<char>)
    requires
        !glob.contains('*'),
    ensures
        globbed(glob, text) <==> glob == text,
    decreases glob.len(),
{
    if glob.len() > 0 {
        assert(glob[0] != '*') by {
            assert(glob.contains(glob[0]));
        }
        let rest = glob.drop_first();
        assert(!rest.contains('*')) by {
            if rest.contains('*') {
                let i = choose|i: int| 0 <= i < rest.len() && rest[i] == '*';
                assert(glob[i + 1] == '*');
            }
        }
        if text.len() > 0 {
            law_plain_globs_match_themselves(rest, text.drop_first());
            if rest == text.drop_first() && text[0] == glob[0] {
                assert(glob =~= seq![glob[0]] + rest);
                assert(text =~= seq![text[0]] + text.drop_first());
            }
        }
    } else if text.len() == 0 {
        assert(glob =~= text);
    }
}

/// A star alone matches every text.
pub proof fn law_star_matches_everything(text: Seq<char>)
    ensures
        globbed(seq!['*'], text),
    decreases text.len(),
{
    let star = seq!['*'];
    assert(star.drop_first() =~= Seq::empty());
    if text.len() > 0 {
        law_star_matches_everything(text.drop_first());
    } else {
        assert(globbed(star.drop_first(), text));
    }
}

/// What two globs match in turn, their sequence matches as one.
pub proof fn law_globs_match_in_sequence(
    a: Seq<char>,
    b: Seq<char>,
    s: Seq<char>,
    t: Seq<char>,
)
    requires
        globbed(a, s),
        globbed(b, t),
    ensures
        globbed(a + b, s + t),
    decreases a.len() + s.len(),
{
    if a.len() == 0 {
        assert(a + b =~= b);
        assert(s + t =~= t);
    } else {
        assert((a + b).drop_first() =~= a.drop_first() + b);
        if a[0] == '*' {
            if globbed(a.drop_first(), s) {
                law_globs_match_in_sequence(a.drop_first(), b, s, t);
            } else {
                law_globs_match_in_sequence(a, b, s.drop_first(), t);
                assert((s + t).drop_first() =~= s.drop_first() + t);
            }
        } else {
            law_globs_match_in_sequence(a.drop_first(), b, s.drop_first(), t);
            assert((s + t).drop_first() =~= s.drop_first() + t);
        }
    }
}

/// A glob that begins with plain characters matches only texts that begin with them.
pub proof fn law_globs_keep_their_beginning(front: Seq<char>, glob: Seq<char>, text: Seq<char>)
    requires
        !front.contains('*'),
        globbed(front + glob, text),
    ensures
        front.len() <= text.len(),
        text.take(front.len() as int) == front,
        globbed(glob, text.skip(front.len() as int)),
    decreases front.len(),
{
    if front.len() == 0 {
        assert(front + glob =~= glob);
        assert(text.take(0) =~= front);
        assert(text.skip(0) =~= text);
    } else {
        assert(front[0] != '*') by {
            assert(front.contains(front[0]));
        }
        let rest = front.drop_first();
        assert(!rest.contains('*')) by {
            if rest.contains('*') {
                let i = choose|i: int| 0 <= i < rest.len() && rest[i] == '*';
                assert(front[i + 1] == '*');
            }
        }
        assert((front + glob).drop_first() =~= rest + glob);
        law_globs_keep_their_beginning(rest, glob, text.drop_first());
        assert(text.take(front.len() as int) =~= front) by {
            assert forall|i: int| 0 <= i < front.len() implies text[i] == front[i] by {
                if i > 0 {
                    assert(text.drop_first().take(rest.len() as int)[i - 1] == rest[i - 1]);
                }
            }
        }
        assert(text.skip(front.len() as int) =~= text.drop_first().skip(rest.len() as int));
    }
}

} // verus!
