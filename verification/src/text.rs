//! Text as sequences of characters: searching, splitting, trimming and
//! decimal numbers, each stated over the characters of the text.
use vstd::prelude::*;
use vstd::utf8::{encode_scalar, encode_utf8};

verus! {

/// `String::push` appends one character to the end of the string.
pub assume_specification[ String::push ](s: &mut String, c: char)
    ensures
        final(s)@ == old(s)@.push(c),
;

/// The length of a text in bytes, as UTF-8.
pub open spec fn utf8_len(s: Seq<char>) -> nat {
    encode_utf8(s).len()
}

/// Characters with the Unicode property `White_Space`.
pub open spec fn is_space(c: char) -> bool {
    ||| '\u{9}' <= c <= '\u{d}'
    ||| c == ' '
    ||| c == '\u{85}'
    ||| c == '\u{a0}'
    ||| c == '\u{1680}'
    ||| '\u{2000}' <= c <= '\u{200a}'
    ||| c == '\u{2028}'
    ||| c == '\u{2029}'
    ||| c == '\u{202f}'
    ||| c == '\u{205f}'
    ||| c == '\u{3000}'
}

/// Decides [`is_space`].
pub fn char_is_space(c: char) -> (b: bool)
    ensures
        b == is_space(c),
{
    ('\u{9}' <= c && c <= '\u{d}') || c == ' ' || c == '\u{85}' || c == '\u{a0}' || c
        == '\u{1680}' || ('\u{2000}' <= c && c <= '\u{200a}') || c == '\u{2028}' || c
        == '\u{2029}' || c == '\u{202f}' || c == '\u{205f}' || c == '\u{3000}'
}

/// The characters of `s`.
pub fn to_chars(s: &str) -> (v: Vec<char>)
    ensures
        v@ == s@,
{
    let mut v: Vec<char> = Vec::new();
    for c in it: s.chars()
        invariant
            it.seq() == s@,
            v@ == s@.take(it.index() as int),
    {
        v.push(c);
        assert(s@.take(it.index() + 1) =~= s@.take(it.index() as int).push(s@[it.index() as int]));
    }
    assert(s@.take(s@.len() as int) =~= s@);
    v
}

/// The text made of the characters `v[from..to]`.
pub fn text_of(v: &Vec<char>, from: usize, to: usize) -> (s: String)
    requires
        from <= to <= v@.len(),
    ensures
        s@ == v@.subrange(from as int, to as int),
{
    let mut s = String::new();
    let mut i: usize = from;
    while i < to
        invariant
            from <= i <= to <= v@.len(),
            s@ == v@.subrange(from as int, i as int),
        decreases to - i,
    {
        s.push(v[i]);
        assert(v@.subrange(from as int, i + 1) =~= v@.subrange(from as int, i as int).push(
            v@[i as int],
        ));
        i += 1;
    }
    s
}

/// The number of bytes of `s`, as UTF-8.
pub fn byte_len(s: &str) -> (n: usize)
    ensures
        n == utf8_len(s@),
{
    s.as_bytes().len()
}

/// Appends `t` to `s`.
pub fn put(s: &mut String, t: &str)
    ensures
        final(s)@ == old(s)@ + t@,
{
    s.append(t)
}

/// Decides whether two texts are equal.
pub fn same(a: &str, b: &str) -> (r: bool)
    ensures
        r == (a@ == b@),
{
    let x = to_chars(a);
    let y = to_chars(b);
    if x.len() != y.len() {
        return false;
    }
    let mut i: usize = 0;
    while i < x.len()
        invariant
            i <= x@.len() == y@.len(),
            forall|k: int| 0 <= k < i ==> x@[k] == y@[k],
            x@ == a@,
            y@ == b@,
        decreases x@.len() - i,
    {
        if x[i] != y[i] {
            return false;
        }
        i += 1;
    }
    assert(x@ =~= y@);
    true
}

// ---------------------------------------------------------------- searching

/// `n` stands in `h` from position `i` on.
pub open spec fn occurs_at(h: Seq<char>, n: Seq<char>, i: int) -> bool {
    0 <= i && i + n.len() <= h.len() && h.subrange(i, i + n.len()) == n
}

/// `n` stands somewhere in `h`.
pub open spec fn holds(h: Seq<char>, n: Seq<char>) -> bool {
    exists|i: int| #[trigger] occurs_at(h, n, i)
}

/// The first position from `i` on at which `n` stands in `h`.
pub open spec fn found_from(h: Seq<char>, n: Seq<char>, i: int) -> Option<int>
    decreases h.len() - i + 1,
{
    if i < 0 || i + n.len() > h.len() {
        None
    } else if occurs_at(h, n, i) {
        Some(i)
    } else {
        found_from(h, n, i + 1)
    }
}

/// The text `h` begins with `n`.
pub open spec fn begins(h: Seq<char>, n: Seq<char>) -> bool {
    occurs_at(h, n, 0)
}

/// The text `h` ends with `n`.
pub open spec fn ends(h: Seq<char>, n: Seq<char>) -> bool {
    occurs_at(h, n, h.len() - n.len())
}

/// [`found_from`] finds the least position at which `n` stands.
pub proof fn lemma_found(h: Seq<char>, n: Seq<char>, i: int)
    requires
        0 <= i,
    ensures
        found_from(h, n, i) matches Some(k) ==> i <= k && occurs_at(h, n, k) && forall|j: int|
            i <= j < k ==> !#[trigger] occurs_at(h, n, j),
        found_from(h, n, i) is None ==> forall|j: int| i <= j ==> !#[trigger] occurs_at(h, n, j),
    decreases h.len() - i + 1,
{
    if i + n.len() <= h.len() && !occurs_at(h, n, i) {
        lemma_found(h, n, i + 1);
    }
}

/// Decides [`occurs_at`].
pub fn match_at(h: &Vec<char>, n: &Vec<char>, i: usize) -> (b: bool)
    ensures
        b == occurs_at(h@, n@, i as int),
{
    if i > h.len() || n.len() > h.len() - i {
        return false;
    }
    let size: usize = h.len();
    let mut k: usize = 0;
    while k < n.len()
        invariant
            k <= n@.len(),
            i + n@.len() <= h@.len() == size,
            forall|j: int| 0 <= j < k ==> h@[i + j] == n@[j],
        decreases n@.len() - k,
    {
        if h[i + k] != n[k] {
            assert(h@.subrange(i as int, i + n@.len())[k as int] != n@[k as int]);
            return false;
        }
        k += 1;
    }
    assert(h@.subrange(i as int, i + n@.len()) =~= n@);
    true
}

/// Computes [`found_from`].
pub fn find_from(h: &Vec<char>, n: &Vec<char>, from: usize) -> (r: Option<usize>)
    ensures
        match r {
            Some(k) => found_from(h@, n@, from as int) == Some(k as int) && k + n@.len() <= h@.len(),
            None => found_from(h@, n@, from as int) is None,
        },
{
    let size: usize = h.len();
    let mut i: usize = from;
    while i <= size && n.len() <= size - i
        invariant
            size == h@.len(),
            found_from(h@, n@, from as int) == found_from(h@, n@, i as int),
        decreases size + 1 - i,
    {
        if match_at(h, n, i) {
            return Some(i);
        }
        proof {
            if n@.len() == 0 {
                assert(h@.subrange(i as int, i + n@.len()) =~= n@);
            }
        }
        i += 1;
    }
    None
}

/// Decides [`holds`].
pub fn contains(h: &str, n: &str) -> (b: bool)
    ensures
        b == holds(h@, n@),
{
    let hv = to_chars(h);
    let nv = to_chars(n);
    let r = find_from(&hv, &nv, 0);
    proof {
        lemma_found(hv@, nv@, 0);
        assert(forall|j: int| #[trigger] occurs_at(hv@, nv@, j) ==> 0 <= j);
    }
    r.is_some()
}

/// Decides [`begins`].
pub fn starts_with(h: &str, n: &str) -> (b: bool)
    ensures
        b == begins(h@, n@),
{
    match_at(&to_chars(h), &to_chars(n), 0)
}

/// Decides [`ends`].
pub fn ends_with(h: &str, n: &str) -> (b: bool)
    ensures
        b == ends(h@, n@),
{
    let hv = to_chars(h);
    let nv = to_chars(n);
    if nv.len() > hv.len() {
        return false;
    }
    match_at(&hv, &nv, hv.len() - nv.len())
}

// ---------------------------------------------------------------- trimming

/// `s` without the white space it begins with.
pub open spec fn trim_start(s: Seq<char>) -> Seq<char>
    decreases s.len(),
{
    if s.len() > 0 && is_space(s[0]) {
        trim_start(s.drop_first())
    } else {
        s
    }
}

/// `s` without the white space it ends with.
pub open spec fn trim_end(s: Seq<char>) -> Seq<char>
    decreases s.len(),
{
    if s.len() > 0 && is_space(s.last()) {
        trim_end(s.drop_last())
    } else {
        s
    }
}

/// `s` without the white space around it.
pub open spec fn trimmed(s: Seq<char>) -> Seq<char> {
    trim_end(trim_start(s))
}

/// Computes [`trimmed`].
pub fn trim(s: &str) -> (r: String)
    ensures
        r@ == trimmed(s@),
{
    let v = to_chars(s);
    let mut a: usize = 0;
    assert(v@.subrange(0, v@.len() as int) =~= v@);
    while a < v.len() && char_is_space(v[a])
        invariant
            a <= v@.len(),
            trim_start(v@) == trim_start(v@.subrange(a as int, v@.len() as int)),
        decreases v@.len() - a,
    {
        assert(v@.subrange(a as int, v@.len() as int).drop_first() =~= v@.subrange(
            a + 1,
            v@.len() as int,
        ));
        a += 1;
    }
    let ghost t = v@.subrange(a as int, v@.len() as int);
    assert(trim_start(v@) == t);
    let mut b: usize = v.len();
    while b > a && char_is_space(v[b - 1])
        invariant
            a <= b <= v@.len(),
            trim_end(t) == trim_end(v@.subrange(a as int, b as int)),
        decreases b,
    {
        assert(v@.subrange(a as int, b as int).drop_last() =~= v@.subrange(a as int, b - 1));
        b -= 1;
    }
    text_of(&v, a, b)
}

// ---------------------------------------------------------------- splitting

/// The pieces of `s` between the characters `sep`; an empty text is one empty
/// piece.
pub open spec fn split_on(s: Seq<char>, sep: char) -> Seq<Seq<char>>
    decreases s.len(),
{
    if s.len() == 0 {
        seq![Seq::<char>::empty()]
    } else {
        let before = split_on(s.drop_last(), sep);
        if s.last() == sep {
            before.push(Seq::empty())
        } else {
            before.update(before.len() - 1, before.last().push(s.last()))
        }
    }
}

/// What a list of texts stands for.
pub open spec fn texts(v: Seq<String>) -> Seq<Seq<char>> {
    v.map_values(|t: String| t@)
}

/// Computes [`split_on`].
pub fn split(s: &str, sep: char) -> (r: Vec<String>)
    ensures
        texts(r@) == split_on(s@, sep),
        r@.len() >= 1,
{
    let v = to_chars(s);
    let mut done: Vec<String> = Vec::new();
    let mut cur = String::new();
    let mut i: usize = 0;
    assert(v@.take(0) =~= Seq::empty());
    assert(texts(done@).push(cur@) =~= split_on(v@.take(0), sep));
    while i < v.len()
        invariant
            i <= v@.len(),
            texts(done@).push(cur@) == split_on(v@.take(i as int), sep),
        decreases v@.len() - i,
    {
        let c = v[i];
        let ghost before = split_on(v@.take(i as int), sep);
        let ghost old_cur = cur@;
        let ghost old_done = texts(done@);
        assert(v@.take(i + 1).drop_last() =~= v@.take(i as int));
        if c == sep {
            let mut piece = String::new();
            std::mem::swap(&mut piece, &mut cur);
            done.push(piece);
            assert(texts(done@) =~= old_done.push(old_cur));
            assert(texts(done@).push(cur@) =~= before.push(Seq::empty()));
        } else {
            cur.push(c);
            assert(texts(done@).push(cur@) =~= before.update(before.len() - 1, before.last().push(c)));
        }
        i += 1;
    }
    assert(v@.take(v@.len() as int) =~= v@);
    let ghost old_done = texts(done@);
    let ghost old_cur = cur@;
    done.push(cur);
    assert(texts(done@) =~= old_done.push(old_cur));
    done
}

/// A line without the carriage return it may end with.
pub open spec fn without_cr(s: Seq<char>) -> Seq<char> {
    if s.len() > 0 && s.last() == '\r' {
        s.drop_last()
    } else {
        s
    }
}

/// The lines of `s`: the pieces between its newlines, each without a carriage
/// return at its end; what follows the last newline counts only if it is not
/// empty.
pub open spec fn lines_of(s: Seq<char>) -> Seq<Seq<char>> {
    let pieces = split_on(s, '\n');
    let ended = pieces.drop_last().map_values(|l: Seq<char>| without_cr(l));
    if pieces.last().len() == 0 {
        ended
    } else {
        ended.push(pieces.last())
    }
}

/// No piece of a text holds the character that it was split on.
pub proof fn lemma_pieces(s: Seq<char>, sep: char)
    ensures
        split_on(s, sep).len() >= 1,
        forall|k: int| 0 <= k < split_on(s, sep).len() ==> !(#[trigger] split_on(s, sep)[k]).contains(sep),
    decreases s.len(),
{
    let pieces = split_on(s, sep);
    if s.len() == 0 {
        assert(!pieces[0].contains(sep));
    } else {
        lemma_pieces(s.drop_last(), sep);
        let before = split_on(s.drop_last(), sep);
        assert forall|k: int| 0 <= k < pieces.len() implies !(#[trigger] pieces[k]).contains(sep) by {
            if s.last() == sep {
                if k < before.len() {
                    assert(pieces[k] == before[k]);
                }
            } else {
                assert(!before[k].contains(sep));
                if k == before.len() - 1 && pieces[k].contains(sep) {
                    let j = choose|j: int| 0 <= j < pieces[k].len() && pieces[k][j] == sep;
                    assert(before[k][j] == sep);
                }
            }
        }
    }
}

/// What does not hold the character goes on with the last piece.
pub proof fn lemma_split_goes_on(s: Seq<char>, t: Seq<char>, sep: char)
    requires
        !t.contains(sep),
    ensures
        split_on(s + t, sep) == split_on(s, sep).update(
            split_on(s, sep).len() - 1,
            split_on(s, sep).last() + t,
        ),
    decreases t.len(),
{
    lemma_pieces(s, sep);
    let before = split_on(s, sep);
    if t.len() == 0 {
        assert(s + t =~= s);
        assert(before.last() + t =~= before.last());
        assert(before.update(before.len() - 1, before.last()) =~= before);
    } else {
        let front = t.drop_last();
        assert(!front.contains(sep)) by {
            if front.contains(sep) {
                let j = choose|j: int| 0 <= j < front.len() && front[j] == sep;
                assert(t[j] == sep);
            }
        }
        assert(t[t.len() - 1] != sep);
        lemma_split_goes_on(s, front, sep);
        assert((s + t).drop_last() =~= s + front);
        assert((before.last() + front).push(t.last()) =~= before.last() + t);
        assert(split_on(s + t, sep) =~= before.update(before.len() - 1, before.last() + t));
    }
}

/// White space goes from the end alone, as long as something else is there.
pub proof fn lemma_trim_end_behind(a: Seq<char>, b: Seq<char>)
    requires
        trim_end(b).len() > 0,
    ensures
        trim_end(a + b) == a + trim_end(b),
    decreases b.len(),
{
    assert((a + b).last() == b.last());
    if is_space(b.last()) {
        assert((a + b).drop_last() =~= a + b.drop_last());
        lemma_trim_end_behind(a, b.drop_last());
    }
}

/// A text that is not blank is not blank without the white space at its end, and
/// that is how it begins.
pub proof fn lemma_trim_end_of_spoken(s: Seq<char>)
    requires
        trimmed(s).len() > 0,
    ensures
        trim_end(s).len() > 0,
        exists|n: int| 0 <= n <= s.len() && trim_end(s) == #[trigger] s.take(n),
    decreases s.len(),
{
    if is_space(s[0]) && s.len() > 0 {
        lemma_trim_end_of_spoken(s.drop_first());
        assert(s =~= seq![s[0]] + s.drop_first());
        lemma_trim_end_behind(seq![s[0]], s.drop_first());
    }
    lemma_trim_end_is_front(s);
}

proof fn lemma_trim_end_is_front(s: Seq<char>)
    ensures
        exists|n: int| 0 <= n <= s.len() && trim_end(s) == #[trigger] s.take(n),
    decreases s.len(),
{
    if s.len() > 0 && is_space(s.last()) {
        lemma_trim_end_is_front(s.drop_last());
        let n = choose|n: int|
            0 <= n <= s.drop_last().len() && trim_end(s.drop_last()) == #[trigger] s.drop_last().take(n);
        assert(s.take(n) =~= s.drop_last().take(n));
    } else {
        assert(s.take(s.len() as int) =~= s);
    }
}

fn drop_cr(s: &String) -> (r: String)
    ensures
        r@ == without_cr(s@),
{
    let v = to_chars(s.as_str());
    if v.len() > 0 && v[v.len() - 1] == '\r' {
        let r = text_of(&v, 0, v.len() - 1);
        assert(v@.subrange(0, v@.len() - 1) =~= v@.drop_last());
        r
    } else {
        s.clone()
    }
}

/// Computes [`lines_of`].
pub fn lines(s: &str) -> (r: Vec<String>)
    ensures
        texts(r@) == lines_of(s@),
{
    let pieces = split(s, '\n');
    let ghost ps = split_on(s@, '\n');
    let mut out: Vec<String> = Vec::new();
    let mut i: usize = 0;
    while i < pieces.len() - 1
        invariant
            i < pieces@.len(),
            texts(pieces@) == ps,
            out@.len() == i,
            forall|k: int| 0 <= k < i ==> (#[trigger] out@[k])@ == without_cr(ps[k]),
        decreases pieces@.len() - i,
    {
        let l = drop_cr(&pieces[i]);
        out.push(l);
        assert(ps[i as int] == pieces@[i as int]@);
        i += 1;
    }
    assert(texts(out@) =~= ps.drop_last().map_values(|l: Seq<char>| without_cr(l)));
    let last = pieces[i].clone();
    assert(ps.last() == pieces@[i as int]@);
    if last.as_str().is_empty() {
        out
    } else {
        let ghost before = texts(out@);
        out.push(last);
        assert(texts(out@) =~= before.push(ps.last()));
        out
    }
}

// ---------------------------------------------------------------- joining

/// The texts of `parts` one after the other, `sep` between any two.
pub open spec fn joined(parts: Seq<Seq<char>>, sep: Seq<char>) -> Seq<char>
    decreases parts.len(),
{
    if parts.len() == 0 {
        Seq::empty()
    } else if parts.len() == 1 {
        parts[0]
    } else {
        joined(parts.drop_last(), sep) + sep + parts.last()
    }
}

/// Computes [`joined`].
pub fn join(parts: &Vec<String>, sep: &str) -> (r: String)
    ensures
        r@ == joined(texts(parts@), sep@),
{
    let ghost ps = texts(parts@);
    let mut out = String::new();
    let mut i: usize = 0;
    assert(ps.take(0) =~= Seq::empty());
    while i < parts.len()
        invariant
            i <= parts@.len(),
            ps == texts(parts@),
            out@ == joined(ps.take(i as int), sep@),
        decreases parts@.len() - i,
    {
        assert(ps.take(i + 1).drop_last() =~= ps.take(i as int));
        assert(ps[i as int] == parts@[i as int]@);
        if i > 0 {
            put(&mut out, sep);
        }
        put(&mut out, parts[i].as_str());
        assert(i == 0 ==> out@ =~= ps.take(i + 1)[0]);
        i += 1;
    }
    assert(ps.take(ps.len() as int) =~= ps);
    out
}

// ---------------------------------------------------------------- order

/// `a` comes before `b` in the order of their characters.
pub open spec fn precedes(a: Seq<char>, b: Seq<char>) -> bool
    decreases a.len(),
{
    if b.len() == 0 {
        false
    } else if a.len() == 0 {
        true
    } else if a[0] != b[0] {
        a[0] < b[0]
    } else {
        precedes(a.drop_first(), b.drop_first())
    }
}

/// The order of texts is total: of two texts one comes before the other unless
/// they are equal.
pub proof fn lemma_order_total(a: Seq<char>, b: Seq<char>)
    ensures
        precedes(a, b) || precedes(b, a) || a == b,
        precedes(a, b) ==> a != b && !precedes(b, a),
    decreases a.len(),
{
    if a.len() > 0 && b.len() > 0 && a[0] == b[0] {
        lemma_order_total(a.drop_first(), b.drop_first());
        assert(a =~= seq![a[0]] + a.drop_first());
        assert(b =~= seq![b[0]] + b.drop_first());
    } else if a.len() == 0 && b.len() == 0 {
        assert(a =~= b);
    }
}

/// No text comes before itself.
pub proof fn lemma_order_irreflexive(a: Seq<char>)
    ensures
        !precedes(a, a),
    decreases a.len(),
{
    if a.len() > 0 {
        lemma_order_irreflexive(a.drop_first());
    }
}

/// The order of texts is transitive.
pub proof fn lemma_order_transitive(a: Seq<char>, b: Seq<char>, c: Seq<char>)
    requires
        precedes(a, b),
        precedes(b, c),
    ensures
        precedes(a, c),
    decreases a.len(),
{
    if a.len() > 0 && a[0] == b[0] && b[0] == c[0] {
        lemma_order_transitive(a.drop_first(), b.drop_first(), c.drop_first());
    }
}

/// Decides [`precedes`].
pub fn comes_before(a: &str, b: &str) -> (r: bool)
    ensures
        r == precedes(a@, b@),
{
    let x = to_chars(a);
    let y = to_chars(b);
    let mut i: usize = 0;
    assert(x@.skip(0) =~= x@);
    assert(y@.skip(0) =~= y@);
    while i < x.len() && i < y.len()
        invariant
            i <= x@.len(),
            i <= y@.len(),
            precedes(a@, b@) == precedes(x@.skip(i as int), y@.skip(i as int)),
        decreases x@.len() - i,
    {
        if x[i] != y[i] {
            return x[i] < y[i];
        }
        assert(x@.skip(i as int).drop_first() =~= x@.skip(i + 1));
        assert(y@.skip(i as int).drop_first() =~= y@.skip(i + 1));
        i += 1;
    }
    i < y.len()
}

/// Each text comes before the one behind it.
pub open spec fn ascending(s: Seq<Seq<char>>) -> bool {
    forall|i: int, j: int| 0 <= i < j < s.len() ==> precedes(#[trigger] s[i], #[trigger] s[j])
}

/// Adds `t` to an ascending list, unless it is there, and keeps it ascending.
pub fn insert_ascending(v: &mut Vec<String>, t: String)
    requires
        ascending(texts(old(v)@)),
    ensures
        ascending(texts(final(v)@)),
        forall|x: Seq<char>|
            #[trigger] texts(final(v)@).contains(x) <==> (texts(old(v)@).contains(x) || x == t@),
{
    let ghost before = texts(v@);
    let mut i: usize = 0;
    while i < v.len() && comes_before(v[i].as_str(), t.as_str())
        invariant
            i <= v@.len(),
            before == texts(v@),
            forall|k: int| 0 <= k < i ==> precedes(#[trigger] before[k], t@),
        decreases v@.len() - i,
    {
        assert(before[i as int] == v@[i as int]@);
        i += 1;
    }
    if i < v.len() && same(v[i].as_str(), t.as_str()) {
        assert(before[i as int] == t@);
        assert(v@ =~= old(v)@);
        return ;
    }
    let ghost tv = t@;
    v.insert(i, t);
    proof {
        let after = texts(v@);
        assert(after =~= before.insert(i as int, tv));
        assert forall|a: int, b: int| 0 <= a < b < after.len() implies precedes(
            #[trigger] after[a],
            #[trigger] after[b],
        ) by {
            if i < before.len() {
                lemma_order_total(before[i as int], tv);
                assert(precedes(tv, before[i as int]));
            }
            if a < i && b == i {
                assert(precedes(before[a], tv));
            } else if a == i && b > i {
                if b - 1 > i {
                    assert(precedes(before[i as int], before[b - 1]));
                    lemma_order_transitive(tv, before[i as int], before[b - 1]);
                }
            } else if a < i && b < i {
                assert(precedes(before[a], before[b]));
            } else if a < i && b > i {
                assert(precedes(before[a], before[b - 1]));
            } else {
                assert(precedes(before[a - 1], before[b - 1]));
            }
        }
        assert forall|x: Seq<char>| after.contains(x) <==> (before.contains(x) || x == tv) by {
            if before.contains(x) {
                let k = choose|k: int| 0 <= k < before.len() && before[k] == x;
                if k < i {
                    assert(after[k] == x);
                } else {
                    assert(after[k + 1] == x);
                }
            }
            if x == tv {
                assert(after[i as int] == x);
            }
            if after.contains(x) {
                let k = choose|k: int| 0 <= k < after.len() && after[k] == x;
                if k < i {
                    assert(before[k] == x);
                } else if k > i {
                    assert(before[k - 1] == x);
                }
            }
        }
    }
}

/// The list with `t` behind it, unless it is there.
pub open spec fn with_new(list: Seq<Seq<char>>, t: Seq<char>) -> Seq<Seq<char>> {
    if list.contains(t) {
        list
    } else {
        list.push(t)
    }
}

/// Decides whether a list holds a text.
pub fn is_in(t: &str, list: &Vec<String>) -> (b: bool)
    ensures
        b == texts(list@).contains(t@),
{
    let ghost ts = texts(list@);
    let mut i: usize = 0;
    while i < list.len()
        invariant
            i <= list@.len(),
            ts == texts(list@),
            forall|k: int| 0 <= k < i ==> ts[k] != t@,
        decreases list@.len() - i,
    {
        assert(ts[i as int] == list@[i as int]@);
        if same(list[i].as_str(), t) {
            return true;
        }
        i += 1;
    }
    false
}

/// Puts `t` behind the list, unless it is there.
pub fn push_new(list: &mut Vec<String>, t: String)
    ensures
        texts(final(list)@) == with_new(texts(old(list)@), t@),
{
    let ghost before = texts(list@);
    if !is_in(t.as_str(), list) {
        list.push(t);
        assert(texts(list@) =~= before.push(t@));
    }
}

// ---------------------------------------------------------------- numbers

/// The character of a decimal digit.
pub open spec fn digit_char(d: nat) -> char {
    if d == 0 {
        '0'
    } else if d == 1 {
        '1'
    } else if d == 2 {
        '2'
    } else if d == 3 {
        '3'
    } else if d == 4 {
        '4'
    } else if d == 5 {
        '5'
    } else if d == 6 {
        '6'
    } else if d == 7 {
        '7'
    } else if d == 8 {
        '8'
    } else {
        '9'
    }
}

/// `n` in decimal notation.
pub open spec fn decimal(n: nat) -> Seq<char>
    decreases n,
{
    if n < 10 {
        seq![digit_char(n)]
    } else {
        decimal(n / 10).push(digit_char(n % 10))
    }
}

fn digit_of(d: u64) -> (c: char)
    requires
        d < 10,
    ensures
        c == digit_char(d as nat),
{
    match d {
        0 => '0',
        1 => '1',
        2 => '2',
        3 => '3',
        4 => '4',
        5 => '5',
        6 => '6',
        7 => '7',
        8 => '8',
        _ => '9',
    }
}

/// Appends `n` in decimal notation.
pub fn put_number(s: &mut String, n: u64)
    ensures
        final(s)@ == old(s)@ + decimal(n as nat),
    decreases n,
{
    if n >= 10 {
        put_number(s, n / 10);
    }
    s.push(digit_of(n % 10));
    assert(s@ =~= old(s)@ + decimal(n as nat));
}

/// `n` as text.
pub fn number(n: u64) -> (s: String)
    ensures
        s@ == decimal(n as nat),
{
    let mut s = String::new();
    put_number(&mut s, n);
    assert(s@ =~= decimal(n as nat));
    s
}

/// `n` as text.
pub fn size_text(n: usize) -> (s: String)
    ensures
        s@ == decimal(n as nat),
{
    number(n as u64)
}

/// The characters `0` to `9`.
pub open spec fn is_digit(c: char) -> bool {
    '0' <= c <= '9'
}

/// The value of a text of decimal digits.
pub open spec fn digits_value(s: Seq<char>) -> nat
    decreases s.len(),
{
    if s.len() == 0 {
        0
    } else {
        digits_value(s.drop_last()) * 10 + (s.last() as nat - '0' as nat) as nat
    }
}

/// A text of nothing but digits, one at least.
pub open spec fn all_digits(s: Seq<char>) -> bool {
    s.len() > 0 && forall|i: int| 0 <= i < s.len() ==> is_digit(#[trigger] s[i])
}

/// The number that a text of digits, with or without a `+` in front, stands
/// for, if it is at most `max`.
pub open spec fn parsed_number(s: Seq<char>, max: nat) -> Option<nat> {
    let t = if s.len() > 0 && s[0] == '+' {
        s.drop_first()
    } else {
        s
    };
    if all_digits(t) && digits_value(t) <= max {
        Some(digits_value(t))
    } else {
        None
    }
}

proof fn lemma_digits_grow(s: Seq<char>, k: int)
    requires
        0 <= k <= s.len(),
    ensures
        digits_value(s.take(k)) <= digits_value(s),
    decreases s.len() - k,
{
    if k < s.len() {
        assert(s.take(k + 1).drop_last() =~= s.take(k));
        lemma_digits_grow(s, k + 1);
    } else {
        assert(s.take(k) =~= s);
    }
}

/// Computes [`parsed_number`] for numbers up to `max`.
pub fn parse_number(s: &str, max: u64) -> (r: Option<u64>)
    ensures
        match r {
            Some(n) => parsed_number(s@, max as nat) == Some(n as nat),
            None => parsed_number(s@, max as nat) is None,
        },
{
    let v = to_chars(s);
    let from: usize = if v.len() > 0 && v[0] == '+' {
        1
    } else {
        0
    };
    let ghost t = v@.skip(from as int);
    assert(from == 0 ==> t =~= v@);
    assert(from == 1 ==> t =~= v@.drop_first());
    if from == v.len() {
        return None;
    }
    let mut n: u64 = 0;
    let mut i: usize = from;
    assert(t.take(0) =~= Seq::empty());
    while i < v.len()
        invariant
            from <= i <= v@.len(),
            t == v@.skip(from as int),
            n == digits_value(t.take(i - from)),
            n <= max,
            forall|k: int| 0 <= k < i - from ==> is_digit(#[trigger] t[k]),
            parsed_number(s@, max as nat) == (if all_digits(t) && digits_value(t) <= max {
                Some(digits_value(t))
            } else {
                None
            }),
        decreases v@.len() - i,
    {
        let c = v[i];
        assert(t[i - from] == c);
        if !('0' <= c && c <= '9') {
            return None;
        }
        let d: u64 = c as u64 - '0' as u64;
        proof {
            assert(t.take(i - from + 1).drop_last() =~= t.take(i - from));
            lemma_digits_grow(t, i - from + 1);
        }
        if n > max / 10 || d > max - n * 10 {
            return None;
        }
        n = n * 10 + d;
        i += 1;
    }
    assert(t.take(i - from) =~= t);
    Some(n)
}

/// 2 texts, one after the other.
pub fn cat2(a: &str, b: &str) -> (r: String)
    ensures
        r@ == a@ + b@,
{
    let mut r = a.to_owned();
    put(&mut r, b);
    r
}

/// 3 texts, one after the other.
pub fn cat3(a: &str, b: &str, c: &str) -> (r: String)
    ensures
        r@ == a@ + b@ + c@,
{
    let mut r = a.to_owned();
    put(&mut r, b);
    put(&mut r, c);
    r
}

/// 4 texts, one after the other.
pub fn cat4(a: &str, b: &str, c: &str, d: &str) -> (r: String)
    ensures
        r@ == a@ + b@ + c@ + d@,
{
    let mut r = a.to_owned();
    put(&mut r, b);
    put(&mut r, c);
    put(&mut r, d);
    r
}

/// 5 texts, one after the other.
pub fn cat5(a: &str, b: &str, c: &str, d: &str, e: &str) -> (r: String)
    ensures
        r@ == a@ + b@ + c@ + d@ + e@,
{
    let mut r = a.to_owned();
    put(&mut r, b);
    put(&mut r, c);
    put(&mut r, d);
    put(&mut r, e);
    r
}

/// 6 texts, one after the other.
pub fn cat6(a: &str, b: &str, c: &str, d: &str, e: &str, f: &str) -> (r: String)
    ensures
        r@ == a@ + b@ + c@ + d@ + e@ + f@,
{
    let mut r = a.to_owned();
    put(&mut r, b);
    put(&mut r, c);
    put(&mut r, d);
    put(&mut r, e);
    put(&mut r, f);
    r
}

/// 7 texts, one after the other.
pub fn cat7(a: &str, b: &str, c: &str, d: &str, e: &str, f: &str, g: &str) -> (r: String)
    ensures
        r@ == a@ + b@ + c@ + d@ + e@ + f@ + g@,
{
    let mut r = a.to_owned();
    put(&mut r, b);
    put(&mut r, c);
    put(&mut r, d);
    put(&mut r, e);
    put(&mut r, f);
    put(&mut r, g);
    r
}

// ---------------------------------------------------------------- prefixes

/// The first `n` characters of `s`, or all of it if it has fewer.
pub open spec fn first_chars(s: Seq<char>, n: nat) -> Seq<char> {
    if s.len() <= n {
        s
    } else {
        s.take(n as int)
    }
}

/// Computes [`first_chars`].
pub fn head(s: &str, n: usize) -> (r: String)
    ensures
        r@ == first_chars(s@, n as nat),
{
    let v = to_chars(s);
    if v.len() <= n {
        s.to_owned()
    } else {
        let r = text_of(&v, 0, n);
        assert(v@.subrange(0, n as int) =~= v@.take(n as int));
        r
    }
}

// ---------------------------------------------------------------- bytes

/// The bytes that a character takes, as UTF-8.
pub open spec fn char_width(c: char) -> nat {
    if (c as u32) < 0x80 {
        1
    } else if (c as u32) < 0x800 {
        2
    } else if (c as u32) < 0x10000 {
        3
    } else {
        4
    }
}

/// Computes [`char_width`].
pub fn width_of(c: char) -> (n: usize)
    ensures
        n == char_width(c),
{
    let u: u32 = c as u32;
    if u < 0x80 {
        1
    } else if u < 0x800 {
        2
    } else if u < 0x10000 {
        3
    } else {
        4
    }
}

/// The bytes of two texts, one after the other, are those of the one and then
/// those of the other.
pub proof fn lemma_utf8_concat(a: Seq<char>, b: Seq<char>)
    ensures
        utf8_len(a + b) == utf8_len(a) + utf8_len(b),
        encode_utf8(a + b) == encode_utf8(a) + encode_utf8(b),
    decreases a.len(),
{
    if a.len() == 0 {
        assert(a + b =~= b);
        assert(encode_utf8(a) + encode_utf8(b) =~= encode_utf8(b));
    } else {
        lemma_utf8_concat(a.drop_first(), b);
        assert((a + b).drop_first() =~= a.drop_first() + b);
        assert(encode_utf8(a + b) =~= encode_utf8(a) + encode_utf8(b));
    }
}

/// One more character is as many more bytes as it takes.
pub proof fn lemma_utf8_push(s: Seq<char>, c: char)
    ensures
        utf8_len(s.push(c)) == utf8_len(s) + char_width(c),
{
    let one = seq![c];
    assert(s.push(c) =~= s + one);
    lemma_utf8_concat(s, one);
    assert(one.drop_first() =~= Seq::empty());
    assert(encode_utf8(one.drop_first()).len() == 0);
    assert(encode_scalar(c as u32).len() == char_width(c));
    assert(encode_utf8(one) == encode_scalar(c as u32) + encode_utf8(one.drop_first()));
}

/// A text has at least as many bytes as characters.
pub proof fn lemma_utf8_at_least_chars(s: Seq<char>)
    ensures
        s.len() <= utf8_len(s),
    decreases s.len(),
{
    if s.len() > 0 {
        lemma_utf8_at_least_chars(s.drop_last());
        assert(s =~= s.drop_last().push(s.last()));
        lemma_utf8_push(s.drop_last(), s.last());
    }
}

/// The longest beginning of `s` that takes at most `limit` bytes.
pub open spec fn byte_prefix(s: Seq<char>, limit: nat) -> Seq<char>
    decreases s.len(),
{
    if s.len() == 0 || utf8_len(s) <= limit {
        s
    } else {
        byte_prefix(s.drop_last(), limit)
    }
}

proof fn lemma_byte_prefix(s: Seq<char>, limit: nat, k: int)
    requires
        0 <= k < s.len(),
        utf8_len(s.take(k)) <= limit,
        utf8_len(s.take(k + 1)) > limit,
    ensures
        byte_prefix(s, limit) == s.take(k),
    decreases s.len(),
{
    lemma_utf8_concat(s.take(k + 1), s.skip(k + 1));
    assert(s.take(k + 1) + s.skip(k + 1) =~= s);
    if k + 1 < s.len() {
        assert(s.drop_last().take(k) =~= s.take(k));
        assert(s.drop_last().take(k + 1) =~= s.take(k + 1));
        lemma_byte_prefix(s.drop_last(), limit, k);
    } else {
        assert(s.drop_last() =~= s.take(k));
        assert(byte_prefix(s.drop_last(), limit) == s.drop_last());
    }
}

/// Computes [`byte_prefix`].
pub fn cut_bytes(s: &str, limit: usize) -> (r: String)
    ensures
        r@ == byte_prefix(s@, limit as nat),
{
    let v = to_chars(s);
    let mut out = String::new();
    let mut used: usize = 0;
    let mut i: usize = 0;
    assert(v@.take(0) =~= Seq::empty());
    while i < v.len()
        invariant
            i <= v@.len(),
            v@ == s@,
            out@ == v@.take(i as int),
            used == utf8_len(v@.take(i as int)),
            used <= limit,
        decreases v@.len() - i,
    {
        let w = width_of(v[i]);
        proof {
            assert(v@.take(i + 1) =~= v@.take(i as int).push(v@[i as int]));
            lemma_utf8_push(v@.take(i as int), v@[i as int]);
        }
        if w > limit - used {
            proof {
                lemma_byte_prefix(v@, limit as nat, i as int);
            }
            return out;
        }
        out.push(v[i]);
        used += w;
        i += 1;
    }
    assert(v@.take(i as int) =~= v@);
    out
}

// ---------------------------------------------------------------- mapping

/// A letter from `A` to `Z` in lower case; any other character as it is.
pub open spec fn lower_char(c: char) -> char {
    if 'A' <= c <= 'Z' {
        (c as u32 + 32) as char
    } else {
        c
    }
}

/// A text with its letters from `A` to `Z` in lower case.
pub open spec fn lower_ascii(s: Seq<char>) -> Seq<char> {
    s.map_values(|c: char| lower_char(c))
}

fn lowered(c: char) -> (r: char)
    ensures
        r == lower_char(c),
{
    if 'A' <= c && c <= 'Z' {
        let u: u8 = c as u8;
        (u + 32) as char
    } else {
        c
    }
}

/// Computes [`lower_ascii`].
pub fn to_lower_ascii(s: &str) -> (r: String)
    ensures
        r@ == lower_ascii(s@),
{
    let v = to_chars(s);
    let mut out = String::new();
    let mut i: usize = 0;
    while i < v.len()
        invariant
            i <= v@.len(),
            out@ == lower_ascii(v@.take(i as int)),
        decreases v@.len() - i,
    {
        let ghost before = out@;
        let c = lowered(v[i]);
        out.push(c);
        assert(out@ =~= lower_ascii(v@.take(i + 1)));
        i += 1;
    }
    assert(v@.take(i as int) =~= v@);
    out
}

/// A text with the character `b` for each `a`.
pub open spec fn swapped(s: Seq<char>, a: char, b: char) -> Seq<char> {
    s.map_values(|c: char| if c == a { b } else { c })
}

/// Computes [`swapped`].
pub fn replace_char(s: &str, a: char, b: char) -> (r: String)
    ensures
        r@ == swapped(s@, a, b),
{
    let v = to_chars(s);
    let mut out = String::new();
    let mut i: usize = 0;
    while i < v.len()
        invariant
            i <= v@.len(),
            out@ == swapped(v@.take(i as int), a, b),
        decreases v@.len() - i,
    {
        let c = if v[i] == a {
            b
        } else {
            v[i]
        };
        out.push(c);
        assert(out@ =~= swapped(v@.take(i + 1), a, b));
        i += 1;
    }
    assert(v@.take(i as int) =~= v@);
    out
}

/// Computes [`trim_start`].
pub fn trim_front(s: &str) -> (r: String)
    ensures
        r@ == trim_start(s@),
{
    let v = to_chars(s);
    let mut a: usize = 0;
    assert(v@.subrange(0, v@.len() as int) =~= v@);
    while a < v.len() && char_is_space(v[a])
        invariant
            a <= v@.len(),
            trim_start(v@) == trim_start(v@.subrange(a as int, v@.len() as int)),
        decreases v@.len() - a,
    {
        assert(v@.subrange(a as int, v@.len() as int).drop_first() =~= v@.subrange(
            a + 1,
            v@.len() as int,
        ));
        a += 1;
    }
    text_of(&v, a, v.len())
}

/// Computes [`trim_end`].
pub fn trim_back(s: &str) -> (r: String)
    ensures
        r@ == trim_end(s@),
{
    let v = to_chars(s);
    let mut b: usize = v.len();
    assert(v@.subrange(0, b as int) =~= v@);
    while b > 0 && char_is_space(v[b - 1])
        invariant
            b <= v@.len(),
            trim_end(v@) == trim_end(v@.subrange(0, b as int)),
        decreases b,
    {
        assert(v@.subrange(0, b as int).drop_last() =~= v@.subrange(0, b - 1));
        b -= 1;
    }
    text_of(&v, 0, b)
}

/// What some fixed texts stand for.
pub open spec fn words(v: Seq<&str>) -> Seq<Seq<char>> {
    v.map_values(|t: &str| t@)
}

/// One of the words stands in `s`.
pub open spec fn holds_any(s: Seq<char>, list: Seq<Seq<char>>) -> bool {
    exists|i: int| 0 <= i < list.len() && holds(s, #[trigger] list[i])
}

/// Decides [`holds_any`].
pub fn contains_any(s: &str, list: &Vec<&str>) -> (b: bool)
    ensures
        b == holds_any(s@, words(list@)),
{
    let ghost ws = words(list@);
    let mut i: usize = 0;
    while i < list.len()
        invariant
            i <= list@.len(),
            ws == words(list@),
            forall|k: int| 0 <= k < i ==> !holds(s@, #[trigger] ws[k]),
        decreases list@.len() - i,
    {
        assert(ws[i as int] == list@[i as int]@);
        if contains(s, list[i]) {
            return true;
        }
        i += 1;
    }
    false
}

/// `s` ends with one of the words.
pub open spec fn ends_in_any(s: Seq<char>, list: Seq<Seq<char>>) -> bool {
    exists|i: int| 0 <= i < list.len() && ends(s, #[trigger] list[i])
}

/// Decides [`ends_in_any`].
pub fn ends_with_any(s: &str, list: &Vec<&str>) -> (b: bool)
    ensures
        b == ends_in_any(s@, words(list@)),
{
    let ghost ws = words(list@);
    let mut i: usize = 0;
    while i < list.len()
        invariant
            i <= list@.len(),
            ws == words(list@),
            forall|k: int| 0 <= k < i ==> !ends(s@, #[trigger] ws[k]),
        decreases list@.len() - i,
    {
        assert(ws[i as int] == list@[i as int]@);
        if ends_with(s, list[i]) {
            return true;
        }
        i += 1;
    }
    false
}

/// Decides whether `s` is one of the words.
pub fn is_one_of(s: &str, list: &Vec<&str>) -> (b: bool)
    ensures
        b == words(list@).contains(s@),
{
    let ghost ws = words(list@);
    let mut i: usize = 0;
    while i < list.len()
        invariant
            i <= list@.len(),
            ws == words(list@),
            forall|k: int| 0 <= k < i ==> #[trigger] ws[k] != s@,
        decreases list@.len() - i,
    {
        assert(ws[i as int] == list@[i as int]@);
        if same(s, list[i]) {
            assert(ws.contains(s@));
            return true;
        }
        i += 1;
    }
    assert(!ws.contains(s@));
    false
}

/// The texts before and behind the first `c`, if there is one.
pub open spec fn parted(s: Seq<char>, c: char) -> Option<(Seq<char>, Seq<char>)> {
    match found_from(s, seq![c], 0) {
        Some(i) => Some((s.take(i), s.skip(i + 1))),
        None => None,
    }
}

/// Computes [`parted`].
pub fn split_once(s: &str, c: char) -> (r: Option<(String, String)>)
    ensures
        match r {
            Some((a, b)) => parted(s@, c) == Some((a@, b@)),
            None => parted(s@, c) is None,
        },
{
    let v = to_chars(s);
    let mut one: Vec<char> = Vec::new();
    one.push(c);
    assert(one@ =~= seq![c]);
    let size: usize = v.len();
    match find_from(&v, &one, 0) {
        Some(i) => {
            let a = text_of(&v, 0, i);
            let b = text_of(&v, i + 1, size);
            assert(a@ =~= v@.take(i as int));
            assert(b@ =~= v@.skip(i + 1));
            Some((a, b))
        },
        None => None,
    }
}

/// A number that may be negative, in decimal notation.
pub open spec fn signed_decimal(n: int) -> Seq<char> {
    if n < 0 {
        "-"@ + decimal((-n) as nat)
    } else {
        decimal(n as nat)
    }
}

/// Computes [`signed_decimal`].
pub fn signed_text(n: i32) -> (r: String)
    ensures
        r@ == signed_decimal(n as int),
{
    let wide: i64 = n as i64;
    if wide < 0 {
        let digits = number((-wide) as u64);
        cat2("-", digits.as_str())
    } else {
        number(wide as u64)
    }
}

// ---------------------------------------------------------------- replacing

/// The text with `new` before each of its characters and at its end.
pub open spec fn interleaved(s: Seq<char>, new: Seq<char>) -> Seq<char>
    decreases s.len(),
{
    if s.len() == 0 {
        new
    } else {
        interleaved(s.drop_last(), new) + seq![s.last()] + new
    }
}

/// The text with `new` in the place of each occurrence of `old_text`, from left
/// to right. The empty text occurs before each character and at the end.
pub open spec fn replaced(s: Seq<char>, old_text: Seq<char>, new: Seq<char>) -> Seq<char>
    decreases s.len(),
{
    if old_text.len() == 0 {
        interleaved(s, new)
    } else {
        match found_from(s, old_text, 0) {
            Some(i) => if 0 <= i && i + old_text.len() <= s.len() {
                s.take(i) + new + replaced(s.skip(i + old_text.len()), old_text, new)
            } else {
                s
            },
            None => s,
        }
    }
}

proof fn lemma_found_shifts(s: Seq<char>, n: Seq<char>, from: int, i: int)
    requires
        0 <= from,
        0 <= i,
        from + i <= s.len(),
    ensures
        found_from(s, n, from + i) == (match found_from(s.skip(from), n, i) {
            Some(k) => Some(k + from),
            None => None,
        }),
    decreases s.len() - from - i + 1,
{
    let rest = s.skip(from);
    if i + n.len() <= rest.len() {
        assert(s.subrange(from + i, from + i + n.len()) =~= rest.subrange(i, i + n.len()));
        if !occurs_at(rest, n, i) {
            if n.len() == 0 {
                assert(rest.subrange(i, i + n.len()) =~= n);
            }
            lemma_found_shifts(s, n, from, i + 1);
        }
    }
}

/// Computes [`replaced`].
pub fn replace(s: &str, old_text: &str, new: &str) -> (r: String)
    ensures
        r@ == replaced(s@, old_text@, new@),
{
    let h = to_chars(s);
    let n = to_chars(old_text);
    let mut out = String::new();
    if n.len() == 0 {
        put(&mut out, new);
        let mut k: usize = 0;
        assert(h@.take(0) =~= Seq::empty());
        assert(out@ =~= new@);
        while k < h.len()
            invariant
                k <= h@.len(),
                out@ == interleaved(h@.take(k as int), new@),
            decreases h@.len() - k,
        {
            assert(h@.take(k + 1).drop_last() =~= h@.take(k as int));
            let ghost before = out@;
            out.push(h[k]);
            put(&mut out, new);
            assert(out@ =~= before + seq![h@[k as int]] + new@);
            k += 1;
        }
        assert(h@.take(k as int) =~= h@);
        return out;
    }
    let mut from: usize = 0;
    assert(h@.skip(0) =~= h@);
    assert(out@ + replaced(h@.skip(0), n@, new@) =~= replaced(h@, n@, new@));
    while from < h.len()
        invariant
            from <= h@.len(),
            n@.len() > 0,
            h@ == s@,
            n@ == old_text@,
            replaced(h@, n@, new@) == out@ + replaced(h@.skip(from as int), n@, new@),
        decreases h@.len() - from,
    {
        proof {
            lemma_found_shifts(h@, n@, from as int, 0);
            lemma_found(h@, n@, from as int);
        }
        let ghost rest = h@.skip(from as int);
        match find_from(&h, &n, from) {
            Some(i) => {
                let piece = text_of(&h, from, i);
                let ghost before = out@;
                put(&mut out, piece.as_str());
                put(&mut out, new);
                let next: usize = i + n.len();
                proof {
                    assert(rest.take(i - from) =~= h@.subrange(from as int, i as int));
                    assert(rest.skip(i - from + n@.len()) =~= h@.skip(next as int));
                    assert(before + (rest.take(i - from) + new@ + replaced(
                        h@.skip(next as int),
                        n@,
                        new@,
                    )) =~= out@ + replaced(h@.skip(next as int), n@, new@));
                }
                from = next;
            },
            None => {
                let piece = text_of(&h, from, h.len());
                put(&mut out, piece.as_str());
                assert(rest =~= h@.subrange(from as int, h@.len() as int));
                return out;
            },
        }
    }
    proof {
        assert(h@.skip(from as int) =~= Seq::empty());
        lemma_found(Seq::empty(), n@, 0);
        if found_from(Seq::<char>::empty(), n@, 0) is Some {
            assert(occurs_at(Seq::<char>::empty(), n@, found_from(Seq::<char>::empty(), n@, 0)->0));
        }
        assert(out@ + Seq::<char>::empty() =~= out@);
    }
    out
}

/// A text that does not hold `old_text` stays as it is.
pub proof fn lemma_nothing_to_replace(s: Seq<char>, old_text: Seq<char>, new: Seq<char>)
    requires
        old_text.len() > 0,
        !holds(s, old_text),
    ensures
        replaced(s, old_text, new) == s,
{
    lemma_found(s, old_text, 0);
    if let Some(i) = found_from(s, old_text, 0) {
        assert(occurs_at(s, old_text, i));
    }
}

/// The text without the `c`s at its end.
pub open spec fn without_trailing(s: Seq<char>, c: char) -> Seq<char>
    decreases s.len(),
{
    if s.len() > 0 && s.last() == c {
        without_trailing(s.drop_last(), c)
    } else {
        s
    }
}

/// Computes [`without_trailing`].
pub fn trim_trailing(s: &str, c: char) -> (r: String)
    ensures
        r@ == without_trailing(s@, c),
{
    let v = to_chars(s);
    let mut n: usize = v.len();
    assert(v@.take(n as int) =~= v@);
    while n > 0 && v[n - 1] == c
        invariant
            n <= v@.len(),
            without_trailing(v@, c) == without_trailing(v@.take(n as int), c),
        decreases n,
    {
        assert(v@.take(n as int).drop_last() =~= v@.take(n - 1));
        n -= 1;
    }
    assert(v@.take(n as int) =~= v@.subrange(0, n as int));
    text_of(&v, 0, n)
}

/// What follows `prefix`, where the text begins with it.
pub open spec fn stripped(s: Seq<char>, prefix: Seq<char>) -> Option<Seq<char>> {
    if begins(s, prefix) {
        Some(s.skip(prefix.len() as int))
    } else {
        None
    }
}

/// Computes [`stripped`].
pub fn strip_prefix(s: &str, prefix: &str) -> (r: Option<String>)
    ensures
        match r {
            Some(t) => stripped(s@, prefix@) == Some(t@),
            None => stripped(s@, prefix@) is None,
        },
{
    let h = to_chars(s);
    let n = to_chars(prefix);
    if !match_at(&h, &n, 0) {
        return None;
    }
    assert(h@.subrange(n@.len() as int, h@.len() as int) =~= h@.skip(n@.len() as int));
    Some(text_of(&h, n.len(), h.len()))
}

// ---------------------------------------------------------------- columns

/// The given number of one character.
pub open spec fn repeated(c: char, n: nat) -> Seq<char> {
    Seq::new(n, |i: int| c)
}

/// Puts the given number of one character behind a text.
pub fn put_repeated(s: &mut String, c: char, n: usize)
    ensures
        final(s)@ == old(s)@ + repeated(c, n as nat),
{
    let ghost before = s@;
    let mut i: usize = 0;
    assert(before + repeated(c, 0) =~= before);
    while i < n
        invariant
            i <= n,
            s@ == before + repeated(c, i as nat),
        decreases n - i,
    {
        s.push(c);
        assert(s@ =~= before + repeated(c, (i + 1) as nat));
        i += 1;
    }
}

/// How many characters are missing to the width.
pub open spec fn missing(t: Seq<char>, width: nat) -> nat {
    if t.len() < width {
        (width - t.len()) as nat
    } else {
        0
    }
}

/// The text at the right of a column of that width.
pub open spec fn right_aligned(t: Seq<char>, width: nat) -> Seq<char> {
    repeated(' ', missing(t, width)) + t
}

/// The text at the left of a column of that width.
pub open spec fn left_aligned(t: Seq<char>, width: nat) -> Seq<char> {
    t + repeated(' ', missing(t, width))
}

fn missing_of(t: &str, width: usize) -> (n: usize)
    ensures
        n == missing(t@, width as nat),
{
    let v = to_chars(t);
    if v.len() < width {
        width - v.len()
    } else {
        0
    }
}

/// Computes [`right_aligned`].
pub fn align_right(t: &str, width: usize) -> (r: String)
    ensures
        r@ == right_aligned(t@, width as nat),
{
    let mut out = String::new();
    put_repeated(&mut out, ' ', missing_of(t, width));
    put(&mut out, t);
    assert(out@ =~= right_aligned(t@, width as nat));
    out
}

/// Computes [`left_aligned`].
pub fn align_left(t: &str, width: usize) -> (r: String)
    ensures
        r@ == left_aligned(t@, width as nat),
{
    let mut out = String::new();
    put(&mut out, t);
    put_repeated(&mut out, ' ', missing_of(t, width));
    assert(out@ =~= left_aligned(t@, width as nat));
    out
}

// ---------------------------------------------------------------- laws

/// Blanks, tabs and ends of lines are white space; no letter, digit or mark of ASCII
/// is.
pub proof fn law_white_space_is_blank(c: char)
    ensures
        c == ' ' || c == '\t' || c == '\n' || c == '\r' ==> is_space(c),
        '!' <= c <= '~' ==> !is_space(c),
{
}

proof fn lemma_trim_start_parts(s: Seq<char>)
    ensures
        trim_start(s).len() <= s.len(),
        s == s.take(s.len() - trim_start(s).len()) + trim_start(s),
        forall|i: int| 0 <= i < s.len() - trim_start(s).len() ==> is_space(#[trigger] s[i]),
        trim_start(s).len() > 0 ==> !is_space(trim_start(s)[0]),
    decreases s.len(),
{
    if s.len() > 0 && is_space(s[0]) {
        let rest = s.drop_first();
        lemma_trim_start_parts(rest);
        let n = s.len() - trim_start(s).len();
        assert forall|i: int| 0 <= i < n implies is_space(#[trigger] s[i]) by {
            if i > 0 {
                assert(rest[i - 1] == s[i]);
            }
        }
        assert(s =~= s.take(n) + trim_start(s)) by {
            assert(rest == rest.take(n - 1) + trim_start(rest));
            assert(s =~= seq![s[0]] + rest);
            assert(s.take(n) =~= seq![s[0]] + rest.take(n - 1));
        }
    } else {
        assert(s =~= s.take(0) + s);
    }
}

proof fn lemma_trim_end_parts(s: Seq<char>)
    ensures
        trim_end(s).len() <= s.len(),
        trim_end(s) == s.take(trim_end(s).len() as int),
        forall|i: int| trim_end(s).len() <= i < s.len() ==> is_space(#[trigger] s[i]),
        trim_end(s).len() > 0 ==> !is_space(trim_end(s).last()),
    decreases s.len(),
{
    if s.len() > 0 && is_space(s.last()) {
        let front = s.drop_last();
        lemma_trim_end_parts(front);
        let n = trim_end(s).len() as int;
        assert(front.take(n) =~= s.take(n));
        assert forall|i: int| n <= i < s.len() implies is_space(#[trigger] s[i]) by {
            if i < front.len() {
                assert(front[i] == s[i]);
            }
        }
    } else {
        assert(s.take(s.len() as int) =~= s);
    }
}

/// Trimming takes white space from both ends and nothing else: what is cut off is
/// blank, what is left neither begins nor ends in a blank, and it is all there.
pub proof fn law_trimming_takes_blanks_alone(s: Seq<char>)
    ensures
        exists|a: int, b: int|
            0 <= a <= b <= s.len() && #[trigger] s.subrange(a, b) == trimmed(s) && (forall|i: int|
                0 <= i < s.len() && !(a <= i < b) ==> is_space(#[trigger] s[i])),
        trimmed(s).len() > 0 ==> !is_space(trimmed(s)[0]) && !is_space(trimmed(s).last()),
        (exists|i: int| 0 <= i < s.len() && !is_space(#[trigger] s[i])) <==> trimmed(s).len() > 0,
        trimmed(trimmed(s)) == trimmed(s),
{
    let t = trim_start(s);
    lemma_trim_start_parts(s);
    lemma_trim_end_parts(t);
    let a = s.len() - t.len();
    let b = a + trimmed(s).len();
    assert(s.subrange(a, b) =~= trimmed(s));
    assert forall|i: int| 0 <= i < s.len() && !(a <= i < b) implies is_space(#[trigger] s[i]) by {
        if i >= b {
            assert(s[i] == t[i - a]);
        }
    }
    let r = trimmed(s);
    if r.len() > 0 {
        assert(r[0] == t[0]);
        assert(s[a] == r[0]);
        assert(trim_start(r) == r);
    }
}

proof fn lemma_decimal_digits(n: nat)
    ensures
        all_digits(decimal(n)),
        digits_value(decimal(n)) == n,
        n > 0 ==> decimal(n)[0] != '0',
    decreases n,
{
    let d = decimal(n);
    if n < 10 {
        assert(d.drop_last() =~= Seq::empty());
        assert(digits_value(d.drop_last()) == 0);
    } else {
        lemma_decimal_digits(n / 10);
        assert(d.drop_last() =~= decimal(n / 10));
        assert(is_digit(d.last()));
        assert forall|i: int| 0 <= i < d.len() implies is_digit(#[trigger] d[i]) by {
            if i < d.len() - 1 {
                assert(d[i] == decimal(n / 10)[i]);
            }
        }
        assert(d[0] == decimal(n / 10)[0]);
    }
}

/// A number that was written is read back as the same number, and two numbers are
/// never written alike.
pub proof fn law_numbers_are_read_back(n: nat, m: nat, max: nat)
    ensures
        n <= max ==> parsed_number(decimal(n), max) == Some(n),
        n > max ==> parsed_number(decimal(n), max) is None,
        decimal(n) == decimal(m) ==> n == m,
        n > 0 ==> decimal(n)[0] != '0',
        all_digits(decimal(n)),
{
    lemma_decimal_digits(n);
    lemma_decimal_digits(m);
}

proof fn lemma_joined_push(parts: Seq<Seq<char>>, sep: Seq<char>, last: Seq<char>)
    ensures
        joined(parts.push(last), sep) == (if parts.len() == 0 {
            last
        } else {
            joined(parts, sep) + sep + last
        }),
{
    assert(parts.push(last).drop_last() =~= parts);
}

/// Splitting loses nothing: the pieces, joined again, are the text, and none of them
/// holds what it was split at.
pub proof fn law_pieces_make_up_the_text(s: Seq<char>, sep: char)
    ensures
        joined(split_on(s, sep), seq![sep]) == s,
        forall|k: int|
            0 <= k < split_on(s, sep).len() ==> !(#[trigger] split_on(s, sep)[k]).contains(sep),
    decreases s.len(),
{
    lemma_pieces(s, sep);
    let one = seq![sep];
    if s.len() == 0 {
        assert(joined(split_on(s, sep), one) =~= s);
    } else {
        let front = s.drop_last();
        law_pieces_make_up_the_text(front, sep);
        lemma_pieces(front, sep);
        let before = split_on(front, sep);
        if s.last() == sep {
            lemma_joined_push(before, one, Seq::empty());
            assert(joined(split_on(s, sep), one) =~= s);
        } else {
            let lead = before.drop_last();
            assert(before =~= lead.push(before.last()));
            lemma_joined_push(lead, one, before.last());
            let last = before.last().push(s.last());
            assert(split_on(s, sep) =~= lead.push(last));
            lemma_joined_push(lead, one, last);
            assert(s =~= front.push(s.last()));
            assert(joined(lead.push(last), one) =~= joined(before, one).push(s.last()));
        }
    }
}

/// Joining keeps every part, whole and in order: each stands behind what the parts
/// before it make up.
pub proof fn law_joined_parts_stand_in_order(parts: Seq<Seq<char>>, sep: Seq<char>, i: int)
    requires
        0 <= i < parts.len(),
    ensures
        occurs_at(
            joined(parts, sep),
            parts[i],
            if i == 0 {
                0
            } else {
                (joined(parts.take(i), sep).len() + sep.len()) as int
            },
        ),
        joined(parts.take(i + 1), sep).len() == parts[i].len() + (if i == 0 {
            0
        } else {
            joined(parts.take(i), sep).len() + sep.len()
        }),
    decreases parts.len(),
{
    let all = joined(parts, sep);
    assert(parts.take(i + 1).drop_last() =~= parts.take(i));
    lemma_joined_push(parts.take(i), sep, parts[i]);
    assert(parts.take(i + 1) =~= parts.take(i).push(parts[i]));
    if i == parts.len() - 1 {
        assert(parts.take(i + 1) =~= parts);
        let at = all.len() - parts[i].len();
        assert(all.subrange(at, all.len() as int) =~= parts[i]);
    } else {
        let front = parts.drop_last();
        law_joined_parts_stand_in_order(front, sep, i);
        assert(front.take(i) =~= parts.take(i));
        let at = if i == 0 {
            0
        } else {
            (joined(parts.take(i), sep).len() + sep.len()) as int
        };
        let f = joined(front, sep);
        assert(all.subrange(at, at + parts[i].len()) =~= f.subrange(at, at + parts[i].len()));
    }
}

/// Parting cuts at the first place: both sides and what stands between them make up
/// the text, and the first side does not hold it. A text that does not hold it is
/// not parted.
pub proof fn law_parting_cuts_at_the_first(s: Seq<char>, c: char)
    ensures
        parted(s, c) is Some <==> s.contains(c),
        parted(s, c) matches Some((a, b)) ==> s == a.push(c) + b && !a.contains(c),
{
    let n = seq![c];
    lemma_found(s, n, 0);
    match found_from(s, n, 0) {
        Some(i) => {
            assert(s.subrange(i, i + 1)[0] == c);
            assert(s[i] == c);
            assert(s =~= s.take(i).push(c) + s.skip(i + 1));
            if s.take(i).contains(c) {
                let j = choose|j: int| 0 <= j < i && s.take(i)[j] == c;
                assert(s.subrange(j, j + 1) =~= n);
                assert(occurs_at(s, n, j));
            }
        },
        None => {
            if s.contains(c) {
                let j = choose|j: int| 0 <= j < s.len() && s[j] == c;
                assert(s.subrange(j, j + 1) =~= n);
                assert(occurs_at(s, n, j));
            }
        },
    }
}

/// A text is cut to a number of bytes at its end alone, and not more than it must
/// be: one character more would be too many bytes.
pub proof fn law_cut_keeps_what_fits(s: Seq<char>, limit: nat, k: int)
    ensures
        byte_prefix(s, limit).len() <= s.len(),
        byte_prefix(s, limit) == s.take(byte_prefix(s, limit).len() as int),
        utf8_len(byte_prefix(s, limit)) <= limit,
        0 <= k <= s.len() && utf8_len(s.take(k)) <= limit ==> k <= byte_prefix(s, limit).len(),
    decreases s.len(),
{
    if s.len() == 0 || utf8_len(s) <= limit {
        assert(s.take(s.len() as int) =~= s);
        assert(s.len() == 0 ==> utf8_len(s) == 0) by {
            assert(encode_utf8(Seq::<char>::empty()).len() == 0);
            assert(s.len() == 0 ==> s =~= Seq::<char>::empty());
        }
    } else {
        let front = s.drop_last();
        let n = byte_prefix(s, limit).len() as int;
        if k < s.len() {
            law_cut_keeps_what_fits(front, limit, k);
            if 0 <= k {
                assert(front.take(k) =~= s.take(k));
            }
        } else {
            law_cut_keeps_what_fits(front, limit, 0);
            assert(s.take(s.len() as int) =~= s);
        }
        assert(front.take(n) =~= s.take(n));
    }
}

/// Lower case changes letters from `A` to `Z` alone, and a text in lower case stays
/// as it is.
pub proof fn law_lower_case_changes_capitals_alone(s: Seq<char>, i: int)
    requires
        0 <= i < s.len(),
    ensures
        lower_ascii(s).len() == s.len(),
        !('A' <= s[i] <= 'Z') ==> lower_ascii(s)[i] == s[i],
        'A' <= s[i] <= 'Z' ==> 'a' <= lower_ascii(s)[i] <= 'z' && lower_ascii(s)[i] as int
            - 'a' as int == s[i] as int - 'A' as int,
        lower_ascii(lower_ascii(s)) == lower_ascii(s),
{
    assert(lower_ascii(lower_ascii(s)) =~= lower_ascii(s));
}

/// In a column a text is all there, at its side, and the column is as wide as asked
/// for unless the text is wider; the rest is blank.
pub proof fn law_columns_hold_their_text(t: Seq<char>, width: nat, i: int)
    ensures
        ends(right_aligned(t, width), t),
        begins(left_aligned(t, width), t),
        right_aligned(t, width).len() == left_aligned(t, width).len(),
        right_aligned(t, width).len() == (if t.len() < width {
            width
        } else {
            t.len()
        }),
        t.len() <= i < left_aligned(t, width).len() ==> left_aligned(t, width)[i] == ' ',
        0 <= i < right_aligned(t, width).len() - t.len() ==> right_aligned(t, width)[i] == ' ',
{
    let (r, l) = (right_aligned(t, width), left_aligned(t, width));
    assert(r.subrange(r.len() - t.len(), r.len() as int) =~= t);
    assert(l.subrange(0, t.len() as int) =~= t);
}

/// The lines of a text hold no end of a line, and a text without carriage returns is
/// its lines, one below the other.
pub proof fn law_lines_make_up_the_text(s: Seq<char>)
    ensures
        forall|k: int| 0 <= k < lines_of(s).len() ==> !(#[trigger] lines_of(s)[k]).contains('\n'),
        !s.contains('\r') && s.len() > 0 && s.last() != '\n' ==> joined(
            lines_of(s),
            seq!['\n'],
        ) == s,
        !s.contains('\r') && s.len() > 0 && s.last() == '\n' ==> joined(
            lines_of(s),
            seq!['\n'],
        ).push('\n') == s,
{
    let pieces = split_on(s, '\n');
    let ls = lines_of(s);
    let one = seq!['\n'];
    law_pieces_make_up_the_text(s, '\n');
    lemma_pieces(s, '\n');
    assert forall|k: int| 0 <= k < ls.len() implies !(#[trigger] ls[k]).contains('\n') by {
        assert(!pieces[k].contains('\n'));
        if ls[k].contains('\n') {
            let j = choose|j: int| 0 <= j < ls[k].len() && ls[k][j] == '\n';
            assert(pieces[k][j] == '\n');
        }
    }
    if !s.contains('\r') && s.len() > 0 {
        assert forall|k: int| 0 <= k < pieces.len() implies without_cr(#[trigger] pieces[k])
            == pieces[k] by {
            if pieces[k].len() > 0 && pieces[k].last() == '\r' {
                law_joined_parts_stand_in_order(pieces, one, k);
                let at = if k == 0 {
                    0
                } else {
                    (joined(pieces.take(k), one).len() + 1) as int
                };
                let cut = s.subrange(at, at + pieces[k].len());
                assert(cut.last() == s[at + pieces[k].len() - 1]);
                assert(s.contains('\r'));
            }
        }
        assert(pieces.drop_last().map_values(|l: Seq<char>| without_cr(l)) =~= pieces.drop_last());
        assert(pieces =~= pieces.drop_last().push(pieces.last()));
        lemma_joined_push(pieces.drop_last(), one, pieces.last());
        if pieces.last().len() == 0 {
            assert(pieces.len() > 1);
            assert(s.last() == '\n');
            assert(joined(ls, one).push('\n') =~= s);
        } else {
            assert(ls =~= pieces);
            assert(s.last() == pieces.last().last());
            if s.last() == '\n' {
                assert(pieces[pieces.len() - 1].contains('\n'));
            }
        }
    }
}

/// Replacing takes the first place where the old text stands, leaves what is before
/// it, and goes on behind it.
pub proof fn law_first_place_is_replaced(
    before: Seq<char>,
    old_text: Seq<char>,
    behind: Seq<char>,
    new: Seq<char>,
)
    requires
        old_text.len() > 0,
        forall|j: int|
            0 <= j < before.len() ==> !#[trigger] occurs_at(before + old_text + behind, old_text, j),
    ensures
        replaced(before + old_text + behind, old_text, new) == before + new + replaced(
            behind,
            old_text,
            new,
        ),
{
    let s = before + old_text + behind;
    let i = before.len() as int;
    lemma_found(s, old_text, 0);
    assert(s.subrange(i, i + old_text.len()) =~= old_text);
    assert(occurs_at(s, old_text, i));
    assert(found_from(s, old_text, 0) == Some(i));
    assert(s.take(i) =~= before);
    assert(s.skip(i + old_text.len()) =~= behind);
}

} // verus!
