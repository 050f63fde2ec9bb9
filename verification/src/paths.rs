//! Paths as text: their components, and what lies under what.
use vstd::prelude::*;
use crate::text::{
    begins, cat2, cat3, comes_before, ends, join, joined, precedes, same, split, split_on, text_of, texts, to_chars,
};

verus! {

/// The pieces that name something: those that are not empty and not `.`.
pub open spec fn named_pieces(pieces: Seq<Seq<char>>) -> Seq<Seq<char>>
    decreases pieces.len(),
{
    if pieces.len() == 0 {
        Seq::empty()
    } else {
        let before = named_pieces(pieces.drop_last());
        if pieces.last().len() == 0 || pieces.last() == "."@ {
            before
        } else {
            before.push(pieces.last())
        }
    }
}

/// The components of a path: the root of an absolute one or the `.` that a
/// relative one begins with, and then the names between its slashes.
pub open spec fn components(path: Seq<char>) -> Seq<Seq<char>> {
    let pieces = split_on(path, '/');
    let names = named_pieces(pieces);
    if path.len() > 0 && path[0] == '/' {
        seq!["/"@] + names
    } else if pieces[0] == "."@ {
        seq!["."@] + names
    } else {
        names
    }
}

/// Computes [`components`].
pub fn components_of(path: &str) -> (r: Vec<String>)
    ensures
        texts(r@) == components(path@),
{
    let pieces = split(path, '/');
    let ghost ps = split_on(path@, '/');
    let chars = crate::text::to_chars(path);
    let mut out: Vec<String> = Vec::new();
    assert(ps[0] == pieces@[0]@);
    if chars.len() > 0 && chars[0] == '/' {
        out.push("/".to_owned());
    } else if same(pieces[0].as_str(), ".") {
        out.push(".".to_owned());
    }
    let ghost lead = texts(out@);
    let mut i: usize = 0;
    assert(ps.take(0) =~= Seq::empty());
    assert(lead + named_pieces(ps.take(0)) =~= lead);
    while i < pieces.len()
        invariant
            i <= pieces@.len(),
            ps == texts(pieces@),
            texts(out@) == lead + named_pieces(ps.take(i as int)),
        decreases pieces@.len() - i,
    {
        assert(ps.take(i + 1).drop_last() =~= ps.take(i as int));
        assert(ps[i as int] == pieces@[i as int]@);
        let ghost before = texts(out@);
        let p = pieces[i].as_str();
        if !p.is_empty() && !same(p, ".") {
            out.push(pieces[i].clone());
            assert(texts(out@) =~= before.push(ps[i as int]));
            assert(before.push(ps[i as int]) =~= lead + named_pieces(ps.take(i as int)).push(
                ps[i as int],
            ));
        }
        i += 1;
    }
    assert(ps.take(i as int) =~= ps);
    assert(lead + named_pieces(ps) =~= components(path@)) by {
        if path@.len() > 0 && path@[0] == '/' {
            assert(lead =~= seq!["/"@]);
        } else if ps[0] == "."@ {
            assert(lead =~= seq!["."@]);
        } else {
            assert(lead =~= Seq::empty());
        }
    }
    out
}

/// The path begins with the components of `base`.
pub open spec fn lies_under(path: Seq<char>, base: Seq<char>) -> bool {
    components(base).is_prefix_of(components(path))
}

/// The path ends with the components of `tail`.
pub open spec fn closes_with(path: Seq<char>, tail: Seq<char>) -> bool {
    components(tail).is_suffix_of(components(path))
}

fn match_components(a: &Vec<String>, from: usize, b: &Vec<String>) -> (r: bool)
    requires
        from + b@.len() <= a@.len(),
    ensures
        r == (texts(a@).subrange(from as int, from + b@.len()) == texts(b@)),
{
    let ghost x = texts(a@);
    let ghost y = texts(b@);
    let size: usize = a.len();
    let mut i: usize = 0;
    while i < b.len()
        invariant
            i <= b@.len(),
            from + b@.len() <= a@.len() == size,
            x == texts(a@),
            y == texts(b@),
            forall|k: int| 0 <= k < i ==> x[from + k] == y[k],
        decreases b@.len() - i,
    {
        assert(x[from + i] == a@[from + i]@);
        assert(y[i as int] == b@[i as int]@);
        if !same(a[from + i].as_str(), b[i].as_str()) {
            assert(x.subrange(from as int, from + b@.len())[i as int] != y[i as int]);
            return false;
        }
        i += 1;
    }
    assert(x.subrange(from as int, from + b@.len()) =~= y);
    true
}

/// Decides [`lies_under`].
pub fn is_under(path: &str, base: &str) -> (b: bool)
    ensures
        b == lies_under(path@, base@),
{
    let p = components_of(path);
    let q = components_of(base);
    assert(texts(p@).len() == p@.len() && texts(q@).len() == q@.len());
    if q.len() > p.len() {
        return false;
    }
    let ghost x = texts(p@);
    let ghost y = texts(q@);
    proof {
        if y.is_prefix_of(x) {
            assert(x.subrange(0, y.len() as int) =~= y);
        }
        if x.subrange(0, y.len() as int) == y {
            assert(y =~= x.subrange(0, y.len() as int));
        }
    }
    match_components(&p, 0, &q)
}

/// Decides [`closes_with`].
pub fn path_ends_with(path: &str, tail: &str) -> (b: bool)
    ensures
        b == closes_with(path@, tail@),
{
    let p = components_of(path);
    let q = components_of(tail);
    assert(texts(p@).len() == p@.len() && texts(q@).len() == q@.len());
    if q.len() > p.len() {
        return false;
    }
    match_components(&p, p.len() - q.len(), &q)
}

/// The components `a` come before the components `b`.
pub open spec fn path_precedes(a: Seq<Seq<char>>, b: Seq<Seq<char>>) -> bool
    decreases a.len(),
{
    if b.len() == 0 {
        false
    } else if a.len() == 0 {
        true
    } else if a[0] != b[0] {
        precedes(a[0], b[0])
    } else {
        path_precedes(a.drop_first(), b.drop_first())
    }
}

/// Decides [`path_precedes`] for two paths.
pub fn path_before(a: &str, b: &str) -> (r: bool)
    ensures
        r == path_precedes(components(a@), components(b@)),
{
    let x = components_of(a);
    let y = components_of(b);
    let ghost xs = texts(x@);
    let ghost ys = texts(y@);
    let mut i: usize = 0;
    assert(xs.skip(0) =~= xs);
    assert(ys.skip(0) =~= ys);
    while i < x.len() && i < y.len()
        invariant
            i <= x@.len(),
            i <= y@.len(),
            xs == texts(x@),
            xs == components(a@),
            ys == texts(y@),
            ys == components(b@),
            path_precedes(xs, ys) == path_precedes(xs.skip(i as int), ys.skip(i as int)),
        decreases x@.len() - i,
    {
        assert(xs[i as int] == x@[i as int]@);
        assert(ys[i as int] == y@[i as int]@);
        if !same(x[i].as_str(), y[i].as_str()) {
            assert(xs.skip(i as int)[0] == xs[i as int]);
            assert(ys.skip(i as int)[0] == ys[i as int]);
            return comes_before(x[i].as_str(), y[i].as_str());
        }
        assert(xs.skip(i as int).drop_first() =~= xs.skip(i + 1));
        assert(ys.skip(i as int).drop_first() =~= ys.skip(i + 1));
        i += 1;
    }
    i < y.len()
}

// ------------------------------------------------------------ parts of the text

/// The piece names something.
pub open spec fn is_named(piece: Seq<char>) -> bool {
    piece.len() > 0 && piece != "."@
}

/// The pieces up to the last one that names something.
pub open spec fn up_to_name(pieces: Seq<Seq<char>>) -> Seq<Seq<char>>
    decreases pieces.len(),
{
    if pieces.len() > 0 && !is_named(pieces.last()) {
        up_to_name(pieces.drop_last())
    } else {
        pieces
    }
}

/// The pieces from the first one that names something.
pub open spec fn from_name(pieces: Seq<Seq<char>>) -> Seq<Seq<char>>
    decreases pieces.len(),
{
    if pieces.len() > 0 && !is_named(pieces[0]) {
        from_name(pieces.drop_first())
    } else {
        pieces
    }
}

/// The pieces behind the first `n` that name something.
pub open spec fn behind_names(pieces: Seq<Seq<char>>, n: nat) -> Seq<Seq<char>>
    decreases n,
{
    let rest = from_name(pieces);
    if n == 0 {
        pieces
    } else if rest.len() == 0 {
        rest
    } else {
        behind_names(rest.drop_first(), (n - 1) as nat)
    }
}

/// The text of the first pieces of a path, as it stands, without what names
/// nothing at its end; the root, and the `.` that a path begins with, stay.
pub open spec fn kept_text(path: Seq<char>, pieces: Seq<Seq<char>>) -> Seq<char> {
    let kept = up_to_name(pieces);
    if kept.len() > 0 {
        joined(kept, "/"@)
    } else if path.len() > 0 && path[0] == '/' {
        "/"@
    } else if split_on(path, '/')[0] == "."@ {
        "."@
    } else {
        Seq::empty()
    }
}

/// What is left of the pieces is a front part of them.
pub proof fn lemma_up_to_name(pieces: Seq<Seq<char>>)
    ensures
        up_to_name(pieces).len() <= pieces.len(),
        up_to_name(pieces) == pieces.take(up_to_name(pieces).len() as int),
    decreases pieces.len(),
{
    if pieces.len() > 0 && !is_named(pieces.last()) {
        lemma_up_to_name(pieces.drop_last());
        let n = up_to_name(pieces).len() as int;
        assert(pieces.take(n) =~= pieces.drop_last().take(n));
    } else {
        assert(pieces.take(pieces.len() as int) =~= pieces);
    }
}

fn names(piece: &String) -> (b: bool)
    ensures
        b == is_named(piece@),
{
    !piece.as_str().is_empty() && !same(piece.as_str(), ".")
}

fn name_end(pieces: &Vec<String>, to: usize) -> (j: usize)
    requires
        to <= pieces@.len(),
    ensures
        j <= to,
        up_to_name(texts(pieces@).take(to as int)) == texts(pieces@).take(j as int),
{
    let ghost ps = texts(pieces@);
    let mut j: usize = to;
    while j > 0 && !names(&pieces[j - 1])
        invariant
            j <= to <= pieces@.len(),
            ps == texts(pieces@),
            up_to_name(ps.take(to as int)) == up_to_name(ps.take(j as int)),
        decreases j,
    {
        assert(ps.take(j as int).last() == pieces@[j - 1]@);
        assert(ps.take(j as int).drop_last() =~= ps.take(j - 1));
        j -= 1;
    }
    assert(j > 0 ==> ps.take(j as int).last() == pieces@[j - 1]@);
    j
}

fn name_start(pieces: &Vec<String>, from: usize) -> (i: usize)
    requires
        from <= pieces@.len(),
    ensures
        from <= i <= pieces@.len(),
        from_name(texts(pieces@).skip(from as int)) == texts(pieces@).skip(i as int),
{
    let ghost ps = texts(pieces@);
    let mut i: usize = from;
    while i < pieces.len() && !names(&pieces[i])
        invariant
            from <= i <= pieces@.len(),
            ps == texts(pieces@),
            from_name(ps.skip(from as int)) == from_name(ps.skip(i as int)),
        decreases pieces@.len() - i,
    {
        assert(ps.skip(i as int)[0] == pieces@[i as int]@);
        assert(ps.skip(i as int).drop_first() =~= ps.skip(i + 1));
        i += 1;
    }
    assert(i < pieces@.len() ==> ps.skip(i as int)[0] == pieces@[i as int]@);
    i
}

fn text_between(pieces: &Vec<String>, from: usize, to: usize) -> (r: String)
    requires
        from <= to <= pieces@.len(),
    ensures
        r@ == joined(texts(pieces@).subrange(from as int, to as int), "/"@),
{
    let mut part: Vec<String> = Vec::new();
    let mut i: usize = from;
    while i < to
        invariant
            from <= i <= to <= pieces@.len(),
            part@.len() == i - from,
            forall|k: int| 0 <= k < part@.len() ==> (#[trigger] part@[k])@ == pieces@[from + k]@,
        decreases to - i,
    {
        part.push(pieces[i].clone());
        i += 1;
    }
    assert(texts(part@) =~= texts(pieces@).subrange(from as int, to as int));
    join(&part, "/")
}

fn kept(path: &str, pieces: &Vec<String>, to: usize) -> (r: String)
    requires
        texts(pieces@) == split_on(path@, '/'),
        to <= pieces@.len(),
        pieces@.len() >= 1,
    ensures
        r@ == kept_text(path@, texts(pieces@).take(to as int)),
{
    let ghost ps = texts(pieces@);
    let end = name_end(pieces, to);
    assert(ps.take(end as int) =~= ps.subrange(0, end as int));
    assert(ps[0] == pieces@[0]@);
    if end > 0 {
        return text_between(pieces, 0, end);
    }
    let chars = to_chars(path);
    if chars.len() > 0 && chars[0] == '/' {
        "/".to_owned()
    } else if same(pieces[0].as_str(), ".") {
        ".".to_owned()
    } else {
        let none = String::new();
        assert(none@ =~= Seq::empty());
        none
    }
}

/// How many names there are among some components.
pub open spec fn name_count(parts: Seq<Seq<char>>) -> nat {
    if parts.len() > 0 && (parts[0] == "/"@ || parts[0] == "."@) {
        (parts.len() - 1) as nat
    } else {
        parts.len()
    }
}

/// The path as seen from `root`: its text behind the names of `root`, as it
/// stands, without what names nothing at either end. The path itself where it does
/// not lie under `root`, and its text without such an end where `root` is empty.
pub open spec fn seen_from(root: Seq<char>, path: Seq<char>) -> Seq<char> {
    let pieces = split_on(path, '/');
    if !lies_under(path, root) {
        path
    } else if components(root).len() == 0 {
        kept_text(path, pieces)
    } else {
        joined(
            up_to_name(from_name(behind_names(pieces, name_count(components(root))))),
            "/"@,
        )
    }
}

proof fn lemma_up_to_name_behind(pieces: Seq<Seq<char>>, from: int)
    requires
        0 <= from <= up_to_name(pieces).len(),
    ensures
        up_to_name(pieces.skip(from)) == up_to_name(pieces).skip(from),
    decreases pieces.len(),
{
    lemma_up_to_name(pieces);
    if pieces.len() > 0 && !is_named(pieces.last()) {
        lemma_up_to_name_behind(pieces.drop_last(), from);
        lemma_up_to_name(pieces.drop_last());
        let rest = pieces.skip(from);
        assert(from <= pieces.len() - 1);
        assert(rest.last() == pieces.last());
        assert(rest.drop_last() =~= pieces.drop_last().skip(from));
    } else {
        let rest = pieces.skip(from);
        if rest.len() > 0 {
            assert(rest.last() == pieces.last());
        }
    }
}

proof fn lemma_nothing_named(pieces: Seq<Seq<char>>, from: int)
    requires
        up_to_name(pieces).len() <= from <= pieces.len(),
    ensures
        up_to_name(pieces.skip(from)).len() == 0,
        from_name(pieces.skip(from)).len() == 0,
    decreases pieces.len() - from,
{
    lemma_tail_is_unnamed(pieces);
    let rest = pieces.skip(from);
    if from < pieces.len() {
        assert(!is_named(pieces[from]));
        lemma_nothing_named(pieces, from + 1);
        assert(rest.drop_first() =~= pieces.skip(from + 1));
        lemma_all_unnamed(rest);
    }
}

proof fn lemma_tail_is_unnamed(pieces: Seq<Seq<char>>)
    ensures
        forall|k: int| up_to_name(pieces).len() <= k < pieces.len() ==> !is_named(#[trigger] pieces[k]),
    decreases pieces.len(),
{
    if pieces.len() > 0 && !is_named(pieces.last()) {
        lemma_tail_is_unnamed(pieces.drop_last());
        assert forall|k: int| up_to_name(pieces).len() <= k < pieces.len() implies !is_named(
            #[trigger] pieces[k],
        ) by {
            if k < pieces.len() - 1 {
                assert(!is_named(pieces.drop_last()[k]));
            }
        }
    }
}

proof fn lemma_all_unnamed(pieces: Seq<Seq<char>>)
    requires
        from_name(pieces).len() == 0,
    ensures
        up_to_name(pieces).len() == 0,
    decreases pieces.len(),
{
    lemma_up_to_name(pieces);
    if up_to_name(pieces).len() > 0 {
        let n = up_to_name(pieces).len() as int;
        lemma_last_is_named(pieces);
        lemma_from_name_stops(pieces, n - 1);
    }
}

proof fn lemma_last_is_named(pieces: Seq<Seq<char>>)
    requires
        up_to_name(pieces).len() > 0,
    ensures
        up_to_name(pieces).len() <= pieces.len(),
        is_named(pieces[up_to_name(pieces).len() - 1]),
    decreases pieces.len(),
{
    if pieces.len() > 0 && !is_named(pieces.last()) {
        lemma_last_is_named(pieces.drop_last());
    }
}

proof fn lemma_from_name_stops(pieces: Seq<Seq<char>>, k: int)
    requires
        0 <= k < pieces.len(),
        is_named(pieces[k]),
    ensures
        from_name(pieces).len() > 0,
    decreases pieces.len(),
{
    if !is_named(pieces[0]) {
        lemma_from_name_stops(pieces.drop_first(), k - 1);
    }
}

/// Computes [`seen_from`].
pub fn rel(root: &str, path: &str) -> (r: String)
    ensures
        r@ == seen_from(root@, path@),
{
    let q = components_of(root);
    if !is_under(path, root) {
        return path.to_owned();
    }
    let pieces = split(path, '/');
    let ghost ps = texts(pieces@);
    let size: usize = pieces.len();
    assert(texts(q@).len() == q@.len());
    if q.len() == 0 {
        assert(ps.take(size as int) =~= ps);
        return kept(path, &pieces, size);
    }
    assert(texts(q@)[0] == q@[0]@);
    let count: usize = if same(q[0].as_str(), "/") || same(q[0].as_str(), ".") {
        q.len() - 1
    } else {
        q.len()
    };
    let ghost wanted = behind_names(ps, count as nat);
    let mut at: usize = 0;
    let mut left: usize = count;
    assert(ps.skip(0) =~= ps);
    while left > 0
        invariant
            at <= pieces@.len(),
            ps == texts(pieces@),
            wanted == behind_names(ps.skip(at as int), left as nat),
        decreases left,
    {
        let next = name_start(&pieces, at);
        if next == pieces.len() {
            at = next;
            left = 0;
            assert(ps.skip(at as int).len() == 0);
            assert(wanted =~= ps.skip(at as int));
        } else {
            assert(ps.skip(next as int).drop_first() =~= ps.skip(next + 1));
            at = next + 1;
            left -= 1;
        }
    }
    let start = name_start(&pieces, at);
    let end = name_end(&pieces, size);
    assert(ps.take(size as int) =~= ps);
    if start >= end {
        let none = String::new();
        assert(none@ =~= Seq::empty());
        proof {
            lemma_nothing_named(ps, start as int);
        }
        return none;
    }
    proof {
        lemma_up_to_name_behind(ps, start as int);
        assert(ps.take(end as int).skip(start as int) =~= ps.subrange(start as int, end as int));
    }
    text_between(&pieces, start, end)
}

// ------------------------------------------------------------ building paths

/// The path of `tail` in the directory `base`; an absolute `tail` stands for
/// itself.
pub open spec fn in_dir(base: Seq<char>, tail: Seq<char>) -> Seq<char> {
    if base.len() == 0 || (tail.len() > 0 && tail[0] == '/') {
        tail
    } else if base.last() == '/' {
        base + tail
    } else {
        base + "/"@ + tail
    }
}

/// Computes [`in_dir`].
pub fn join_path(base: &str, tail: &str) -> (r: String)
    ensures
        r@ == in_dir(base@, tail@),
{
    let b = to_chars(base);
    let t = to_chars(tail);
    if b.len() == 0 || (t.len() > 0 && t[0] == '/') {
        tail.to_owned()
    } else if b[b.len() - 1] == '/' {
        cat2(base, tail)
    } else {
        cat3(base, "/", tail)
    }
}

/// The position of the last dot.
pub open spec fn last_dot(name: Seq<char>) -> Option<int>
    decreases name.len(),
{
    if name.len() == 0 {
        None
    } else if name.last() == '.' {
        Some(name.len() - 1)
    } else {
        last_dot(name.drop_last())
    }
}

fn find_last_dot(name: &Vec<char>) -> (r: Option<usize>)
    ensures
        match r {
            Some(i) => last_dot(name@) == Some(i as int) && i < name@.len(),
            None => last_dot(name@) is None,
        },
{
    let mut n: usize = name.len();
    assert(name@.take(n as int) =~= name@);
    while n > 0
        invariant
            n <= name@.len(),
            last_dot(name@) == last_dot(name@.take(n as int)),
        decreases n,
    {
        assert(name@.take(n as int).drop_last() =~= name@.take(n - 1));
        if name[n - 1] == '.' {
            return Some(n - 1);
        }
        n -= 1;
    }
    None
}

/// The name without its extension; a name whose only dot is its first character
/// has none.
pub open spec fn stem_of(name: Seq<char>) -> Seq<char> {
    match last_dot(name) {
        Some(i) => if i > 0 {
            name.take(i)
        } else {
            name
        },
        None => name,
    }
}

/// Computes [`stem_of`].
pub fn stem(name: &str) -> (r: String)
    ensures
        r@ == stem_of(name@),
{
    let v = to_chars(name);
    match find_last_dot(&v) {
        Some(i) => if i > 0 {
            assert(v@.subrange(0, i as int) =~= v@.take(i as int));
            text_of(&v, 0, i)
        } else {
            name.to_owned()
        },
        None => name.to_owned(),
    }
}

/// The extension of a name: what stands behind its last dot, where something
/// stands before it.
pub open spec fn extension_of(name: Seq<char>) -> Seq<char> {
    match last_dot(name) {
        Some(i) => if i > 0 {
            name.skip(i + 1)
        } else {
            Seq::empty()
        },
        None => Seq::empty(),
    }
}

/// Computes [`extension_of`].
pub fn extension(name: &str) -> (r: String)
    ensures
        r@ == extension_of(name@),
{
    let v = to_chars(name);
    let size: usize = v.len();
    match find_last_dot(&v) {
        Some(i) => if i > 0 {
            assert(v@.subrange(i + 1, v@.len() as int) =~= v@.skip(i + 1));
            text_of(&v, i + 1, size)
        } else {
            let none = String::new();
            assert(none@ =~= Seq::empty());
            none
        },
        None => {
            let none = String::new();
            assert(none@ =~= Seq::empty());
            none
        },
    }
}

/// A component that names a file or a directory.
pub open spec fn is_name(part: Seq<char>) -> bool {
    part != "/"@ && part != "."@ && part != ".."@
}

/// The name at the end of a path; `None` where it ends in none.
pub open spec fn name_of(path: Seq<char>) -> Option<Seq<char>> {
    let parts = components(path);
    if parts.len() > 0 && is_name(parts.last()) {
        Some(parts.last())
    } else {
        None
    }
}

/// Computes [`name_of`].
pub fn file_name(path: &str) -> (r: Option<String>)
    ensures
        match r {
            Some(n) => name_of(path@) == Some(n@),
            None => name_of(path@) is None,
        },
{
    let parts = components_of(path);
    let ghost ps = texts(parts@);
    let size: usize = parts.len();
    if size > 0 {
        assert(ps.last() == parts@[size - 1]@);
        let last = parts[size - 1].clone();
        let t = last.as_str();
        if !same(t, "/") && !same(t, ".") && !same(t, "..") {
            return Some(last);
        }
    }
    None
}

/// The text of the path without its last name and what stands behind it; `None`
/// where it has none.
pub open spec fn parent_of(path: Seq<char>) -> Option<Seq<char>> {
    let pieces = split_on(path, '/');
    let kept = up_to_name(pieces);
    if kept.len() > 0 {
        Some(kept_text(path, kept.drop_last()))
    } else if pieces[0] == "."@ {
        Some(Seq::empty())
    } else {
        None
    }
}

/// The path with another name at its end; behind it, where it ends in none.
pub open spec fn beside(path: Seq<char>, name: Seq<char>) -> Seq<char> {
    match (name_of(path), parent_of(path)) {
        (Some(_), Some(dir)) => in_dir(dir, name),
        _ => in_dir(path, name),
    }
}

/// Computes [`beside`].
pub fn rename(path: &str, name: &str) -> (r: String)
    ensures
        r@ == beside(path@, name@),
{
    let pieces = split(path, '/');
    let ghost ps = texts(pieces@);
    let size: usize = pieces.len();
    assert(ps[0] == pieces@[0]@);
    assert(ps.take(size as int) =~= ps);
    let end = name_end(&pieces, size);
    if file_name(path).is_none() {
        return join_path(path, name);
    }
    if end > 0 {
        assert(ps.take(end as int).drop_last() =~= ps.take(end - 1));
        let dir = kept(path, &pieces, end - 1);
        join_path(dir.as_str(), name)
    } else if same(pieces[0].as_str(), ".") {
        let none = String::new();
        assert(none@ =~= Seq::empty());
        join_path(none.as_str(), name)
    } else {
        join_path(path, name)
    }
}

/// The directories above the first pieces of a path, the outermost first.
pub open spec fn parents(path: Seq<char>, pieces: Seq<Seq<char>>) -> Seq<Seq<char>>
    decreases pieces.len(),
{
    let kept = up_to_name(pieces);
    if kept.len() > 0 {
        proof {
            lemma_up_to_name(pieces);
        }
        parents(path, kept.drop_last()).push(kept_text(path, kept.drop_last()))
    } else if split_on(path, '/')[0] == "."@ {
        seq![Seq::<char>::empty()]
    } else {
        Seq::empty()
    }
}

/// The path behind the directories above it, each the one above the next.
pub open spec fn ancestors(path: Seq<char>) -> Seq<Seq<char>> {
    parents(path, split_on(path, '/')).push(path)
}

fn parents_of(path: &str, pieces: &Vec<String>, to: usize) -> (r: Vec<String>)
    requires
        texts(pieces@) == split_on(path@, '/'),
        to <= pieces@.len(),
        pieces@.len() >= 1,
    ensures
        texts(r@) == parents(path@, texts(pieces@).take(to as int)),
    decreases to,
{
    let ghost ps = texts(pieces@);
    assert(ps[0] == pieces@[0]@);
    let end = name_end(pieces, to);
    if end > 0 {
        assert(ps.take(end as int).drop_last() =~= ps.take(end - 1));
        let mut out = parents_of(path, pieces, end - 1);
        let ghost before = texts(out@);
        let dir = kept(path, pieces, end - 1);
        let ghost d = dir@;
        out.push(dir);
        assert(texts(out@) =~= before.push(d));
        return out;
    }
    let mut out: Vec<String> = Vec::new();
    if same(pieces[0].as_str(), ".") {
        out.push(String::new());
        assert(texts(out@)[0] =~= Seq::empty());
        assert(texts(out@) =~= seq![Seq::<char>::empty()]);
    } else {
        assert(texts(out@) =~= Seq::empty());
    }
    out
}

/// Computes [`ancestors`].
pub fn ancestors_of(path: &str) -> (r: Vec<String>)
    ensures
        texts(r@) == ancestors(path@),
{
    let pieces = split(path, '/');
    let size: usize = pieces.len();
    assert(texts(pieces@).take(size as int) =~= texts(pieces@));
    let mut out = parents_of(path, &pieces, size);
    let ghost before = texts(out@);
    out.push(path.to_owned());
    assert(texts(out@) =~= before.push(path@));
    out
}

/// The last of the directories above a path is its parent, and a path without a
/// parent has none above it.
pub proof fn law_ancestors_are_parents(path: Seq<char>)
    ensures
        match parent_of(path) {
            Some(dir) => ancestors(path).len() > 1 && ancestors(path)[ancestors(path).len() - 2]
                == dir,
            None => ancestors(path) == seq![path],
        },
{
    lemma_up_to_name(split_on(path, '/'));
}

// ------------------------------------------------------------ laws

/// A name is its stem and its extension with a dot between them, where it has one, and the
/// extension holds no dot; a name without an extension is all stem.
pub proof fn law_names_part_at_the_last_dot(name: Seq<char>)
    ensures
        last_dot(name) matches Some(i) ==> i > 0 ==> name == stem_of(name) + seq!['.']
            + extension_of(name),
        !extension_of(name).contains('.'),
        extension_of(name).len() > 0 ==> stem_of(name).len() > 0 && name.len() == stem_of(
            name,
        ).len() + 1 + extension_of(name).len(),
        !name.contains('.') ==> stem_of(name) == name && extension_of(name).len() == 0,
{
    lemma_last_dot(name);
    if let Some(i) = last_dot(name) {
        assert(name =~= name.take(i) + seq!['.'] + name.skip(i + 1));
        let tail = name.skip(i + 1);
        if tail.contains('.') {
            let k = choose|k: int| 0 <= k < tail.len() && tail[k] == '.';
            assert(name[i + 1 + k] == '.');
        }
        assert(name[i] == '.');
        assert(name.contains('.'));
    }
}

proof fn lemma_last_dot(name: Seq<char>)
    ensures
        last_dot(name) matches Some(i) ==> 0 <= i < name.len() && name[i] == '.' && forall|k: int|
            i < k < name.len() ==> #[trigger] name[k] != '.',
        last_dot(name) is None ==> !name.contains('.'),
    decreases name.len(),
{
    if name.len() > 0 && name.last() != '.' {
        let front = name.drop_last();
        lemma_last_dot(front);
        if let Some(i) = last_dot(name) {
            assert forall|k: int| i < k < name.len() implies #[trigger] name[k] != '.' by {
                if k < front.len() {
                    assert(front[k] == name[k]);
                }
            }
            assert(front[i] == name[i]);
        } else if name.contains('.') {
            let k = choose|k: int| 0 <= k < name.len() && name[k] == '.';
            assert(front[k] == '.');
        }
    }
}

/// A relative path in a directory ends with itself and begins with the directory; an
/// absolute one stands for itself.
pub proof fn law_paths_stand_in_their_directory(base: Seq<char>, tail: Seq<char>)
    ensures
        ends(in_dir(base, tail), tail),
        tail.len() > 0 && tail[0] == '/' ==> in_dir(base, tail) == tail,
        !(tail.len() > 0 && tail[0] == '/') ==> begins(in_dir(base, tail), base),
{
    let p = in_dir(base, tail);
    assert(p.subrange(p.len() - tail.len(), p.len() as int) =~= tail);
    if !(tail.len() > 0 && tail[0] == '/') {
        assert(p.subrange(0, base.len() as int) =~= base);
    }
}

proof fn lemma_split_at(a: Seq<char>, b: Seq<char>, c: char)
    ensures
        split_on(a + seq![c] + b, c) == split_on(a, c) + split_on(b, c),
        split_on(b, c).len() > 0,
    decreases b.len(),
{
    let s = a + seq![c] + b;
    if b.len() == 0 {
        assert(s =~= a.push(c));
        assert(s.drop_last() =~= a);
        assert(split_on(b, c) =~= seq![Seq::<char>::empty()]);
        assert(split_on(s, c) =~= split_on(a, c) + split_on(b, c));
    } else {
        lemma_split_at(a, b.drop_last(), c);
        assert(s.drop_last() =~= a + seq![c] + b.drop_last());
        assert(s.last() == b.last());
        assert(split_on(s, c) =~= split_on(a, c) + split_on(b, c));
    }
}

proof fn lemma_named_add(a: Seq<Seq<char>>, b: Seq<Seq<char>>)
    ensures
        named_pieces(a + b) == named_pieces(a) + named_pieces(b),
    decreases b.len(),
{
    if b.len() == 0 {
        assert(a + b =~= a);
        assert(named_pieces(a) + named_pieces(b) =~= named_pieces(a));
    } else {
        lemma_named_add(a, b.drop_last());
        assert((a + b).drop_last() =~= a + b.drop_last());
        assert((a + b).last() == b.last());
        let (x, y) = (named_pieces(a), named_pieces(b.drop_last()));
        if !(b.last().len() == 0 || b.last() == "."@) {
            assert((x + y).push(b.last()) =~= x + y.push(b.last()));
        }
    }
}

proof fn lemma_simple_split(name: Seq<char>, c: char)
    requires
        !name.contains(c),
    ensures
        split_on(name, c) == seq![name],
    decreases name.len(),
{
    if name.len() == 0 {
        assert(name =~= Seq::empty());
    } else {
        let front = name.drop_last();
        assert(!front.contains(c)) by {
            if front.contains(c) {
                let k = choose|k: int| 0 <= k < front.len() && front[k] == c;
                assert(name[k] == c);
            }
        }
        assert(name[name.len() - 1] != c);
        lemma_simple_split(front, c);
        assert(front.push(name.last()) =~= name);
        assert(split_on(name, c) =~= seq![name]);
    }
}

proof fn lemma_one_named(name: Seq<char>)
    requires
        name.len() > 0,
        name != "."@,
    ensures
        named_pieces(seq![name]) == seq![name],
        named_pieces(seq![Seq::<char>::empty()]) == Seq::<Seq<char>>::empty(),
{
    let one = seq![name];
    assert(one.drop_last() =~= Seq::empty());
    assert(named_pieces(one.drop_last()) =~= Seq::empty());
    assert(named_pieces(one) =~= seq![name]);
    let none = seq![Seq::<char>::empty()];
    assert(none.drop_last() =~= Seq::empty());
    assert(named_pieces(none) =~= Seq::empty());
}

/// A file in a directory has the components of the directory and its own name behind
/// them: it lies under the directory, and its name is the one that it was given.
pub proof fn law_files_lie_in_their_directory(base: Seq<char>, name: Seq<char>)
    requires
        base.len() > 0,
        name.len() > 0,
        name != "."@,
        !name.contains('/'),
    ensures
        components(in_dir(base, name)) == components(base).push(name),
        lies_under(in_dir(base, name), base),
        closes_with(in_dir(base, name), name),
        name != ".."@ ==> name_of(in_dir(base, name)) == Some(name),
{
    let p = in_dir(base, name);
    let slash = seq!['/'];
    reveal_strlit("/");
    assert("/"@ =~= slash);
    assert(name[0] != '/') by {
        assert(name.contains(name[0]));
    }
    lemma_simple_split(name, '/');
    lemma_one_named(name);
    let front = if base.last() == '/' {
        base.drop_last()
    } else {
        base
    };
    assert(p =~= front + slash + name);
    lemma_split_at(front, name, '/');
    lemma_named_add(split_on(front, '/'), seq![name]);
    if base.last() == '/' {
        assert(base =~= front + slash + Seq::<char>::empty());
        lemma_split_at(front, Seq::empty(), '/');
        lemma_named_add(split_on(front, '/'), seq![Seq::<char>::empty()]);
        assert(split_on(Seq::<char>::empty(), '/') =~= seq![Seq::<char>::empty()]);
    }
    lemma_split_at(Seq::empty(), front, '/');
    let names = named_pieces(split_on(front, '/'));
    assert(named_pieces(split_on(base, '/')) =~= names);
    assert(named_pieces(split_on(p, '/')) =~= names.push(name));
    assert(p[0] == base[0]);
    assert(split_on(p, '/')[0] == split_on(front, '/')[0]);
    assert(split_on(base, '/')[0] == split_on(front, '/')[0]);
    let (c, d) = (components(base), components(p));
    assert(d =~= c.push(name));
    assert(c.is_prefix_of(d));
    assert(components(name) =~= seq![name]);
    assert(d.subrange(d.len() - 1, d.len() as int) =~= seq![name]);
    assert(seq![name].is_suffix_of(d));
    if name != ".."@ {
        assert(name != "/"@) by {
            if name == "/"@ {
                assert(name[0] == '/');
            }
        }
    }
}

/// A path lies under itself, and what lies under a directory that lies under another lies
/// under that one too.
pub proof fn law_lying_under_is_an_order(a: Seq<char>, b: Seq<char>, c: Seq<char>)
    ensures
        lies_under(a, a),
        lies_under(a, b) && lies_under(b, c) ==> lies_under(a, c),
{
    let (x, y, z) = (components(a), components(b), components(c));
    assert(x.is_prefix_of(x));
    if lies_under(a, b) && lies_under(b, c) {
        assert(z =~= x.subrange(0, z.len() as int)) by {
            assert(y =~= x.subrange(0, y.len() as int));
            assert(z =~= y.subrange(0, z.len() as int));
        }
    }
}

} // verus!
