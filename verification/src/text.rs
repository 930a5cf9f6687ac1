//! Character-level text operations used throughout the library, each
//! specified over the `Seq<char>` view of the strings involved.

use vstd::prelude::*;

verus! {

broadcast use vstd::string::group_string_axioms;

/// `p` is a prefix of `s`.
pub open spec fn is_prefix(p: Seq<char>, s: Seq<char>) -> bool {
    p.len() <= s.len() && s.subrange(0, p.len() as int) == p
}

/// The characters of a string slice, in order.
pub fn chars_of(s: &str) -> (v: Vec<char>)
    ensures
        v@ == s@,
{
    let mut v: Vec<char> = Vec::new();
    for c in it: s.chars()
        invariant
            v@ == it.seq().take(it.index()),
    {
        v.push(c);
    }
    v
}


/// Appends `c` to `s`.
///
/// Trusted: calls `String::push`, which the standard library documents as
/// appending the given char to the end of the string.
#[verifier::external_body]
pub(crate) fn push_char(s: &mut String, c: char)
    ensures
        final(s)@ == old(s)@.push(c),
{
    s.push(c)
}

/// A string holding exactly the given characters.
pub fn string_of(v: &[char]) -> (s: String)
    ensures
        s@ == v@,
{
    let mut s = String::new();
    let n = v.len();
    for i in 0..n
        invariant
            n == v@.len(),
            s@ == v@.take(i as int),
    {
        push_char(&mut s, v[i]);
        assert(v@.take(i + 1) == v@.take(i as int).push(v@[i as int]));
    }
    assert(v@.take(n as int) == v@);
    s
}

/// Appends all of `t` to `s`.
pub fn push_chars(s: &mut String, t: &[char])
    ensures
        final(s)@ == old(s)@ + t@,
{
    let n = t.len();
    let ghost start = s@;
    for i in 0..n
        invariant
            n == t@.len(),
            s@ == start + t@.take(i as int),
    {
        push_char(s, t[i]);
        assert(t@.take(i + 1) == t@.take(i as int).push(t@[i as int]));
    }
    assert(t@.take(n as int) == t@);
}

/// Whether two character sequences are equal.
pub fn same_chars(a: &[char], b: &[char]) -> (r: bool)
    ensures
        r == (a@ == b@),
{
    if a.len() != b.len() {
        return false;
    }
    let n = a.len();
    for i in 0..n
        invariant
            n == a@.len(),
            n == b@.len(),
            forall|j: int| 0 <= j < i ==> a@[j] == b@[j],
    {
        if a[i] != b[i] {
            return false;
        }
    }
    assert(a@ =~= b@);
    true
}

/// Whether two strings hold the same characters.
pub fn same_text(a: &str, b: &str) -> (r: bool)
    ensures
        r == (a@ == b@),
{
    let x = chars_of(a);
    let y = chars_of(b);
    same_chars(x.as_slice(), y.as_slice())
}

/// `p` occurs in `s` starting at position `i`.
pub open spec fn occurs_at(s: Seq<char>, p: Seq<char>, i: int) -> bool {
    0 <= i && i + p.len() <= s.len() && s.subrange(i, i + p.len()) == p
}

/// The first position at or after `i` where `p` occurs in `s`.
pub open spec fn find_from(s: Seq<char>, p: Seq<char>, i: int) -> Option<int>
    decreases s.len() - i,
{
    if i < 0 || i + p.len() > s.len() {
        None
    } else if occurs_at(s, p, i) {
        Some(i)
    } else if i >= s.len() {
        None
    } else {
        find_from(s, p, i + 1)
    }
}

/// The first position where `p` occurs in `s`.
pub open spec fn find_first(s: Seq<char>, p: Seq<char>) -> Option<int> {
    find_from(s, p, 0)
}

/// `p` occurs somewhere in `s`.
pub open spec fn contains_seq(s: Seq<char>, p: Seq<char>) -> bool {
    find_first(s, p) is Some
}

/// What `find_from` returns: the least position at or after `i` where `p` occurs.
pub proof fn lemma_find_from(s: Seq<char>, p: Seq<char>, i: int)
    requires
        0 <= i,
    ensures
        find_from(s, p, i) matches Some(k) ==> i <= k && occurs_at(s, p, k) && forall|j: int|
            i <= j < k ==> !occurs_at(s, p, j),
        find_from(s, p, i) is None ==> forall|j: int| i <= j ==> !occurs_at(s, p, j),
    decreases s.len() - i,
{
    if i + p.len() > s.len() {
    } else if occurs_at(s, p, i) {
    } else if i >= s.len() {
        assert forall|j: int| i <= j implies !occurs_at(s, p, j) by {
            if j > i {
            }
        }
    } else {
        lemma_find_from(s, p, i + 1);
        assert forall|j: int| i <= j && find_from(s, p, i) is None implies !occurs_at(s, p, j) by {
            if j > i {
            }
        }
    }
}

/// The first occurrence at or after `i` is the one at `k` when `p` occurs
/// at `k` and nowhere between `i` and `k`.
pub proof fn lemma_find_from_is(s: Seq<char>, p: Seq<char>, i: int, k: int)
    requires
        0 <= i <= k,
        occurs_at(s, p, k),
        forall|j: int| i <= j < k ==> !occurs_at(s, p, j),
    ensures
        find_from(s, p, i) == Some(k),
    decreases k - i,
{
    if i < k {
        assert(!occurs_at(s, p, i));
        lemma_find_from_is(s, p, i + 1, k);
    }
}

/// An occurrence anywhere means the text contains the pattern.
pub proof fn lemma_occurs_contains(s: Seq<char>, p: Seq<char>, k: int)
    requires
        occurs_at(s, p, k),
    ensures
        contains_seq(s, p),
{
    lemma_find_from(s, p, 0);
}

/// No character of `w` occurs in `t`.
pub open spec fn disjoint_chars(w: Seq<char>, t: Seq<char>) -> bool {
    forall|i: int, j: int| 0 <= i < w.len() && 0 <= j < t.len() ==> w[i] != t[j]
}

proof fn lemma_replace_keeps_prefix(q: Seq<char>, s: Seq<char>, from: Seq<char>, to: Seq<char>)
    requires
        is_prefix(q, s),
        from.len() > 0,
        disjoint_chars(q, from),
    ensures
        is_prefix(q, replace_all(s, from, to)),
    decreases q.len(),
{
    if q.len() > 0 {
        assert(s[0] == q[0]);
        assert(!is_prefix(from, s)) by {
            if is_prefix(from, s) {
                assert(s.subrange(0, from.len() as int)[0] == from[0]);
            }
        }
        let q2 = q.drop_first();
        let s2 = s.drop_first();
        assert(s2.subrange(0, q2.len() as int) =~= q2) by {
            assert forall|i: int| 0 <= i < q2.len() implies s2.subrange(0, q2.len() as int)[i] == q2[i] by {
                assert(s.subrange(0, q.len() as int)[i + 1] == q[i + 1]);
            }
        }
        assert(disjoint_chars(q2, from)) by {
            assert forall|i: int, j: int| 0 <= i < q2.len() && 0 <= j < from.len() implies q2[i] != from[j] by {
                assert(q2[i] == q[i + 1]);
            }
        }
        lemma_replace_keeps_prefix(q2, s2, from, to);
        let r = replace_all(s, from, to);
        assert(r == seq![s[0]] + replace_all(s2, from, to));
        assert(r.subrange(0, q.len() as int) =~= q) by {
            assert forall|i: int| 0 <= i < q.len() implies r.subrange(0, q.len() as int)[i] == q[i] by {
                if i > 0 {
                    assert(replace_all(s2, from, to).subrange(0, q2.len() as int)[i - 1] == q2[i - 1]);
                }
            }
        }
    } else {
        assert(replace_all(s, from, to).subrange(0, 0) =~= q);
    }
}

/// Replacing a pattern keeps every occurrence of a text that shares no
/// character with the pattern.
pub proof fn lemma_replace_keeps_occurrence(
    s: Seq<char>,
    from: Seq<char>,
    to: Seq<char>,
    w: Seq<char>,
    k: int,
)
    requires
        occurs_at(s, w, k),
        from.len() > 0,
        w.len() > 0,
        disjoint_chars(w, from),
    ensures
        contains_seq(replace_all(s, from, to), w),
    decreases s.len(),
{
    let r = replace_all(s, from, to);
    if is_prefix(from, s) {
        if k < from.len() {
            assert(s.subrange(k, k + w.len())[0] == w[0]);
            assert(s.subrange(0, from.len() as int)[k] == from[k]);
            assert(false);
        } else {
            let s2 = s.skip(from.len() as int);
            assert(s2.subrange(k - from.len(), k - from.len() + w.len()) =~= s.subrange(k, k + w.len()));
            lemma_replace_keeps_occurrence(s2, from, to, w, k - from.len());
            let r2 = replace_all(s2, from, to);
            lemma_find_from(r2, w, 0);
            let j = find_first(r2, w)->0;
            assert(r == to + r2);
            assert(r.subrange(to.len() + j, to.len() + j + w.len()) =~= r2.subrange(j, j + w.len()));
            lemma_occurs_contains(r, w, to.len() + j);
        }
    } else if k == 0 {
        assert(is_prefix(w, s)) by {
            assert(s.subrange(0, w.len() as int) =~= s.subrange(k, k + w.len()));
        }
        lemma_replace_keeps_prefix(w, s, from, to);
        assert(r.subrange(0, w.len() as int) == w);
        lemma_occurs_contains(r, w, 0);
    } else {
        let s2 = s.drop_first();
        assert(s2.subrange(k - 1, k - 1 + w.len()) =~= s.subrange(k, k + w.len()));
        lemma_replace_keeps_occurrence(s2, from, to, w, k - 1);
        let r2 = replace_all(s2, from, to);
        lemma_find_from(r2, w, 0);
        let j = find_first(r2, w)->0;
        assert(r == seq![s[0]] + r2);
        assert(r.subrange(1 + j, 1 + j + w.len()) =~= r2.subrange(j, j + w.len()));
        lemma_occurs_contains(r, w, 1 + j);
    }
}

/// A text in which `c` does not occur.
pub open spec fn free_of(s: Seq<char>, c: char) -> bool {
    forall|i: int| 0 <= i < s.len() ==> s[i] != c
}

proof fn lemma_replace_dots_first(t: Seq<char>, to: Seq<char>)
    requires
        to.len() > 0,
        free_of(to, '.'),
        replace_all(t, seq!['.', '.', '.'], to).len() > 0,
        replace_all(t, seq!['.', '.', '.'], to)[0] == '.',
    ensures
        t.len() > 0,
        t[0] == '.',
        !is_prefix(seq!['.', '.', '.'], t),
        replace_all(t, seq!['.', '.', '.'], to) == seq![t[0]] + replace_all(
            t.drop_first(),
            seq!['.', '.', '.'],
            to,
        ),
{
    let d = seq!['.', '.', '.'];
    if t.len() > 0 && is_prefix(d, t) {
        assert(replace_all(t, d, to)[0] == to[0]);
    }
}

/// Replacing every `...` by a text without dots leaves no `...` behind.
pub proof fn lemma_replace_dots_leaves_none(s: Seq<char>, to: Seq<char>, k: int)
    requires
        to.len() > 0,
        free_of(to, '.'),
    ensures
        !occurs_at(replace_all(s, seq!['.', '.', '.'], to), seq!['.', '.', '.'], k),
    decreases s.len(),
{
    let d = seq!['.', '.', '.'];
    let r = replace_all(s, d, to);
    if occurs_at(r, d, k) {
        assert(r.subrange(k, k + 3)[0] == '.');
        assert(r[k] == '.' && r[k + 1] == '.' && r[k + 2] == '.') by {
            assert(r.subrange(k, k + 3)[1] == '.');
            assert(r.subrange(k, k + 3)[2] == '.');
        }
        if s.len() == 0 {
        } else if is_prefix(d, s) {
            let r2 = replace_all(s.skip(3), d, to);
            assert(r == to + r2);
            if k < to.len() {
                assert(r[k] == to[k]);
            } else {
                assert(r2.subrange(k - to.len(), k - to.len() + 3) =~= r.subrange(k, k + 3));
                lemma_replace_dots_leaves_none(s.skip(3), to, k - to.len());
            }
        } else {
            let s1 = s.drop_first();
            let r1 = replace_all(s1, d, to);
            assert(r == seq![s[0]] + r1);
            if k >= 1 {
                assert(r1.subrange(k - 1, k + 2) =~= r.subrange(k, k + 3));
                lemma_replace_dots_leaves_none(s1, to, k - 1);
            } else {
                assert(r1[0] == '.');
                lemma_replace_dots_first(s1, to);
                let s2 = s1.drop_first();
                let r2 = replace_all(s2, d, to);
                assert(r1 == seq![s1[0]] + r2);
                assert(r2.len() > 0 && r2[0] == '.') by {
                    assert(r1[1] == r2[0]);
                }
                lemma_replace_dots_first(s2, to);
                assert(s.subrange(0, 3) =~= d);
            }
        }
    }
}

/// An occurrence of `q` inside an occurrence of `p` is an occurrence in the text.
pub proof fn lemma_occurs_within(s: Seq<char>, p: Seq<char>, k: int, q: Seq<char>, o: int)
    requires
        occurs_at(s, p, k),
        0 <= o,
        o + q.len() <= p.len(),
        p.subrange(o, o + q.len()) == q,
    ensures
        occurs_at(s, q, k + o),
{
    assert(s.subrange(k + o, k + o + q.len()) =~= p.subrange(o, o + q.len())) by {
        assert forall|i: int| 0 <= i < q.len() implies #[trigger] s.subrange(k + o, k + o + q.len())[i]
            == p.subrange(o, o + q.len())[i] by {
            assert(s.subrange(k, k + p.len())[o + i] == p[o + i]);
        }
    }
}

/// A `...` in a text spliced around a dot-free piece comes from the outer text.
pub proof fn lemma_dots_in_splice(x: Seq<char>, mid: Seq<char>, a: int, b: int, k: int)
    requires
        0 <= a <= b <= x.len(),
        mid.len() > 0,
        free_of(mid, '.'),
        occurs_at(x.take(a) + mid + x.skip(b), seq!['.', '.', '.'], k),
    ensures
        contains_seq(x, seq!['.', '.', '.']),
{
    let d = seq!['.', '.', '.'];
    let y = x.take(a) + mid + x.skip(b);
    assert(y.subrange(k, k + 3)[0] == y[k]);
    assert(y.subrange(k, k + 3)[1] == y[k + 1]);
    assert(y.subrange(k, k + 3)[2] == y[k + 2]);
    if k + 3 <= a {
        assert(x.subrange(k, k + 3) =~= y.subrange(k, k + 3));
        lemma_occurs_contains(x, d, k);
    } else if k >= a + mid.len() {
        let k2 = k - a - mid.len() + b;
        assert(x.subrange(k2, k2 + 3) =~= y.subrange(k, k + 3));
        lemma_occurs_contains(x, d, k2);
    } else {
        let j = if k >= a { k } else { a };
        assert(j < k + 3 && j < a + mid.len());
        assert(y[j] == mid[j - a]);
    }
}

/// Whether `p` occurs in `s` at position `i`.
pub fn occurs_at_exec(s: &[char], p: &[char], i: usize) -> (r: bool)
    ensures
        r == occurs_at(s@, p@, i as int),
{
    if i > s.len() || p.len() > s.len() - i {
        return false;
    }
    let n = p.len();
    for k in 0..n
        invariant
            n == p@.len(),
            i <= s.len(),
            n <= s.len() - i,
            forall|j: int| 0 <= j < k ==> s@[i + j] == p@[j],
    {
        if s[i + k] != p[k] {
            assert(s@.subrange(i as int, i + n)[k as int] != p@[k as int]);
            return false;
        }
    }
    assert(s@.subrange(i as int, i + n) =~= p@);
    true
}

/// The first position at or after `from` where `p` occurs in `s`.
pub fn find_chars(s: &[char], p: &[char], from: usize) -> (r: Option<usize>)
    ensures
        r matches Some(k) ==> find_from(s@, p@, from as int) == Some(k as int),
        r is None ==> find_from(s@, p@, from as int) is None,
{
    let mut i = from;
    while i <= s.len() && p.len() <= s.len() - i
        invariant
            from <= i,
            find_from(s@, p@, from as int) == find_from(s@, p@, i as int),
        decreases s.len() + 1 - i,
    {
        if occurs_at_exec(s, p, i) {
            return Some(i);
        }
        if i == s.len() {
            return None;
        }
        i = i + 1;
    }
    None
}


/// The characters that carry the Unicode `White_Space` property, the set
/// that `char::is_whitespace` and the `trim` family of `str` recognise.
pub open spec fn is_space(c: char) -> bool {
    ||| '\u{9}' <= c <= '\u{d}'
    ||| c == ' '
    ||| c == '\u{85}'
    ||| c == '\u{a0}'
    ||| c == '\u{1680}'
    ||| '\u{2000}' <= c <= '\u{200a}'
    ||| c == '\u{2028}'
    ||| c == '\u{2029}'
    ||| c == '\u{202f}'
    ||| c == '\u{205f}'
    ||| c == '\u{3000}'
}

/// Whether `c` is a whitespace character.
pub fn is_space_exec(c: char) -> (r: bool)
    ensures
        r == is_space(c),
{
    ('\u{9}' <= c && c <= '\u{d}') || c == ' ' || c == '\u{85}' || c == '\u{a0}' || c
        == '\u{1680}' || ('\u{2000}' <= c && c <= '\u{200a}') || c == '\u{2028}' || c
        == '\u{2029}' || c == '\u{202f}' || c == '\u{205f}' || c == '\u{3000}'
}

/// `s` without its leading whitespace.
pub open spec fn trim_start(s: Seq<char>) -> Seq<char>
    decreases s.len(),
{
    if s.len() > 0 && is_space(s[0]) {
        trim_start(s.drop_first())
    } else {
        s
    }
}

/// `s` without its trailing whitespace.
pub open spec fn trim_end(s: Seq<char>) -> Seq<char>
    decreases s.len(),
{
    if s.len() > 0 && is_space(s.last()) {
        trim_end(s.drop_last())
    } else {
        s
    }
}

/// `s` without leading and trailing whitespace.
pub open spec fn trim(s: Seq<char>) -> Seq<char> {
    trim_end(trim_start(s))
}

/// The number of leading whitespace characters of `v`.
pub fn leading_space_count(v: &[char]) -> (k: usize)
    ensures
        k <= v@.len(),
        trim_start(v@) == v@.skip(k as int),
{
    let mut i: usize = 0;
    assert(v@.skip(0) == v@);
    while i < v.len() && is_space_exec(v[i])
        invariant
            i <= v@.len(),
            trim_start(v@) == trim_start(v@.skip(i as int)),
        decreases v.len() - i,
    {
        assert(v@.skip(i as int).drop_first() == v@.skip(i + 1));
        i = i + 1;
    }
    i
}

/// The length of `v` once its trailing whitespace is removed.
pub fn trimmed_end_len(v: &[char]) -> (k: usize)
    ensures
        k <= v@.len(),
        trim_end(v@) == v@.take(k as int),
{
    let mut j: usize = v.len();
    assert(v@.take(j as int) == v@);
    while j > 0 && is_space_exec(v[j - 1])
        invariant
            j <= v@.len(),
            trim_end(v@) == trim_end(v@.take(j as int)),
        decreases j,
    {
        assert(v@.take(j as int).drop_last() == v@.take(j - 1));
        j = j - 1;
    }
    j
}

/// The characters of `v` between `from` and `to`.
pub fn slice_chars(v: &[char], from: usize, to: usize) -> (r: Vec<char>)
    requires
        from <= to <= v@.len(),
    ensures
        r@ == v@.subrange(from as int, to as int),
{
    let mut r: Vec<char> = Vec::new();
    let mut i = from;
    while i < to
        invariant
            from <= i <= to <= v@.len(),
            r@ == v@.subrange(from as int, i as int),
        decreases to - i,
    {
        r.push(v[i]);
        assert(v@.subrange(from as int, i + 1) == v@.subrange(from as int, i as int).push(
            v@[i as int],
        ));
        i = i + 1;
    }
    r
}

/// `v` without leading and trailing whitespace.
pub fn trim_chars(v: &[char]) -> (r: Vec<char>)
    ensures
        r@ == trim(v@),
{
    let k = leading_space_count(v);
    let rest = slice_chars(v, k, v.len());
    assert(rest@ == v@.skip(k as int));
    let j = trimmed_end_len(rest.as_slice());
    slice_chars(rest.as_slice(), 0, j)
}

/// `v` without its trailing whitespace.
pub fn trim_end_chars(v: &[char]) -> (r: Vec<char>)
    ensures
        r@ == trim_end(v@),
{
    let j = trimmed_end_len(v);
    slice_chars(v, 0, j)
}

/// `s` with every occurrence of `from`, scanned left to right without
/// overlap, replaced by `to`: what `str::replace` computes for a non-empty
/// pattern.
pub open spec fn replace_all(s: Seq<char>, from: Seq<char>, to: Seq<char>) -> Seq<char>
    decreases s.len(),
{
    if s.len() == 0 || from.len() == 0 {
        s
    } else if is_prefix(from, s) {
        to + replace_all(s.skip(from.len() as int), from, to)
    } else {
        seq![s[0]] + replace_all(s.drop_first(), from, to)
    }
}

/// Appends all of `t` to `out`.
pub fn extend_chars(out: &mut Vec<char>, t: &[char])
    ensures
        final(out)@ == old(out)@ + t@,
{
    let n = t.len();
    let ghost start = out@;
    for k in 0..n
        invariant
            n == t@.len(),
            out@ == start + t@.take(k as int),
    {
        out.push(t[k]);
        assert(t@.take(k + 1) == t@.take(k as int).push(t@[k as int]));
    }
    assert(t@.take(n as int) == t@);
}

/// Replaces every occurrence of a non-empty `from` in `v` by `to`.
pub fn replace_chars(v: &[char], from: &[char], to: &[char]) -> (r: Vec<char>)
    requires
        from@.len() > 0,
    ensures
        r@ == replace_all(v@, from@, to@),
{
    let mut out: Vec<char> = Vec::new();
    let mut i: usize = 0;
    assert(v@.skip(0) == v@);
    while i < v.len()
        invariant
            i <= v@.len(),
            from@.len() > 0,
            out@ + replace_all(v@.skip(i as int), from@, to@) == replace_all(v@, from@, to@),
        decreases v.len() - i,
    {
        let ghost rest = v@.skip(i as int);
        let ghost out0 = out@;
        if occurs_at_exec(v, from, i) {
            assert(rest.subrange(0, from@.len() as int) == v@.subrange(i as int, i + from@.len()));
            assert(rest.skip(from@.len() as int) == v@.skip(i + from@.len()));
            let ghost tail = replace_all(v@.skip(i + from@.len()), from@, to@);
            assert(replace_all(rest, from@, to@) == to@ + tail);
            extend_chars(&mut out, to);
            assert(out0 + (to@ + tail) == (out0 + to@) + tail);
            i = i + from.len();
        } else {
            assert(!is_prefix(from@, rest)) by {
                if is_prefix(from@, rest) {
                    assert(v@.subrange(i as int, i + from@.len()) == rest.subrange(0, from@.len() as int));
                }
            }
            assert(rest.drop_first() == v@.skip(i + 1));
            let ghost tail = replace_all(v@.skip(i + 1), from@, to@);
            assert(replace_all(rest, from@, to@) == seq![v@[i as int]] + tail);
            out.push(v[i]);
            assert(out0 + (seq![v@[i as int]] + tail) == out0.push(v@[i as int]) + tail);
            i = i + 1;
        }
    }
    assert(v@.skip(i as int).len() == 0);
    assert(out@ + Seq::<char>::empty() == out@);
    out
}


/// Whether `p` is a prefix of `s`.
pub fn starts_with_chars(s: &[char], p: &[char]) -> (r: bool)
    ensures
        r == is_prefix(p@, s@),
{
    occurs_at_exec(s, p, 0)
}

/// `p` is a suffix of `s`.
pub open spec fn is_suffix(p: Seq<char>, s: Seq<char>) -> bool {
    p.len() <= s.len() && s.skip(s.len() - p.len()) == p
}

/// Whether `p` is a suffix of `s`.
pub fn ends_with_chars(s: &[char], p: &[char]) -> (r: bool)
    ensures
        r == is_suffix(p@, s@),
{
    if p.len() > s.len() {
        return false;
    }
    let r = occurs_at_exec(s, p, s.len() - p.len());
    assert(s@.subrange(s@.len() - p@.len(), s@.len() as int) == s@.skip(s@.len() - p@.len()));
    r
}

/// Whether the text `p` is a prefix of the text `s`.
pub fn starts_with_text(s: &str, p: &str) -> (r: bool)
    ensures
        r == is_prefix(p@, s@),
{
    let x = chars_of(s);
    let y = chars_of(p);
    starts_with_chars(x.as_slice(), y.as_slice())
}

/// Whether the text `p` occurs in the text `s`.
pub fn contains_text(s: &str, p: &str) -> (r: bool)
    ensures
        r == contains_seq(s@, p@),
{
    let x = chars_of(s);
    let y = chars_of(p);
    find_chars(x.as_slice(), y.as_slice(), 0).is_some()
}

/// The decimal digit character for `d`.
pub open spec fn digit_char(d: nat) -> char {
    ((48 + d) as u32) as char
}

/// The decimal numeral of `n`, as `usize`'s `Display` writes it.
pub open spec fn decimal(n: nat) -> Seq<char>
    decreases n,
{
    if n < 10 {
        seq![digit_char(n)]
    } else {
        decimal(n / 10).push(digit_char(n % 10))
    }
}

/// Appends the decimal numeral of `n` to `out`.
pub fn push_decimal(out: &mut String, n: usize)
    ensures
        final(out)@ == old(out)@ + decimal(n as nat),
    decreases n,
{
    if n >= 10 {
        push_decimal(out, n / 10);
    }
    let d: u8 = (n % 10) as u8;
    let c: char = (48u8 + d) as char;
    assert(c == digit_char((n % 10) as nat));
    push_char(out, c);
}

/// The decimal numeral of `n`.
pub fn decimal_string(n: usize) -> (s: String)
    ensures
        s@ == decimal(n as nat),
{
    let mut s = String::new();
    push_decimal(&mut s, n);
    s
}

/// The texts of `list` separated by `sep`.
pub open spec fn join(list: Seq<Seq<char>>, sep: Seq<char>) -> Seq<char>
    decreases list.len(),
{
    if list.len() == 0 {
        Seq::empty()
    } else if list.len() == 1 {
        list[0]
    } else {
        join(list.drop_last(), sep) + sep + list.last()
    }
}

/// The views of a list of strings.
pub open spec fn views(v: Seq<String>) -> Seq<Seq<char>> {
    v.map_values(|s: String| s@)
}

/// Pushing a string pushes its view.
pub proof fn lemma_views_push(v: Seq<String>, s: String)
    ensures
        views(v.push(s)) == views(v).push(s@),
{
    assert(views(v.push(s)) =~= views(v).push(s@));
}

/// The strings of `list` separated by `sep`.
pub fn join_strings(list: &Vec<String>, sep: &str) -> (r: String)
    ensures
        r@ == join(views(list@), sep@),
{
    let mut r = String::new();
    let n = list.len();
    for i in 0..n
        invariant
            n == list@.len(),
            r@ == join(views(list@).take(i as int), sep@),
    {
        let ghost prefix = views(list@).take(i + 1);
        assert(prefix.drop_last() == views(list@).take(i as int));
        if i != 0 {
            r.append(sep);
        }
        r.append(list[i].as_str());
    }
    assert(views(list@).take(n as int) == views(list@));
    r
}

/// ASCII lowercase of one character; other characters are unchanged.
pub open spec fn ascii_lower(c: char) -> char {
    if 'A' <= c <= 'Z' {
        ((c as u32) + 32) as char
    } else {
        c
    }
}

/// Every character of `s` is ASCII.
pub open spec fn all_ascii(s: Seq<char>) -> bool {
    forall|i: int| 0 <= i < s.len() ==> (s[i] as u32) < 128
}

/// The result of `str::to_lowercase` on `s`: the Unicode lowercase mapping.
pub uninterp spec fn unicode_lowercase(s: Seq<char>) -> Seq<char>;

/// The lowercase form of `s`.
///
/// Trusted: calls `str::to_lowercase`. Its result is named
/// `unicode_lowercase`; the one fact stated of it is the documented one
/// that on ASCII text it lowercases the letters `A` to `Z` one for one and
/// leaves every other character as it is.
#[verifier::external_body]
pub(crate) fn to_lowercase(s: &str) -> (r: String)
    ensures
        r@ == unicode_lowercase(s@),
        all_ascii(s@) ==> r@ == s@.map_values(|c: char| ascii_lower(c)),
{
    s.to_lowercase()
}


/// Replacing a one-character pattern that does not occur leaves a text unchanged.
pub proof fn lemma_replace_absent_char(s: Seq<char>, c: char, to: Seq<char>)
    requires
        forall|i: int| 0 <= i < s.len() ==> s[i] != c,
    ensures
        replace_all(s, seq![c], to) == s,
    decreases s.len(),
{
    if s.len() > 0 {
        assert(!is_prefix(seq![c], s)) by {
            if is_prefix(seq![c], s) {
                assert(s.subrange(0, 1)[0] == c);
            }
        }
        lemma_replace_absent_char(s.drop_first(), c, to);
        assert(seq![s[0]] + s.drop_first() == s);
    }
}


/// `a` comes before or equals `b` in lexicographic order of characters,
/// which is also the byte order of their UTF-8 encodings.
pub open spec fn text_le(a: Seq<char>, b: Seq<char>) -> bool
    decreases a.len(),
{
    if a.len() == 0 {
        true
    } else if b.len() == 0 {
        false
    } else if a[0] != b[0] {
        a[0] < b[0]
    } else {
        text_le(a.drop_first(), b.drop_first())
    }
}

/// Lexicographic order is total.
pub proof fn lemma_text_le_total(a: Seq<char>, b: Seq<char>)
    ensures
        text_le(a, b) || text_le(b, a),
    decreases a.len(),
{
    if a.len() > 0 && b.len() > 0 && a[0] == b[0] {
        lemma_text_le_total(a.drop_first(), b.drop_first());
    }
}

/// Lexicographic order is transitive.
pub proof fn lemma_text_le_transitive(a: Seq<char>, b: Seq<char>, c: Seq<char>)
    requires
        text_le(a, b),
        text_le(b, c),
    ensures
        text_le(a, c),
    decreases a.len(),
{
    if a.len() > 0 && b.len() > 0 && c.len() > 0 && a[0] == b[0] && b[0] == c[0] {
        lemma_text_le_transitive(a.drop_first(), b.drop_first(), c.drop_first());
    }
}

/// Lexicographic order is antisymmetric.
pub proof fn lemma_text_le_antisymmetric(a: Seq<char>, b: Seq<char>)
    requires
        text_le(a, b),
        text_le(b, a),
    ensures
        a == b,
    decreases a.len(),
{
    if a.len() > 0 && b.len() > 0 {
        lemma_text_le_antisymmetric(a.drop_first(), b.drop_first());
        assert(a =~= seq![a[0]] + a.drop_first());
        assert(b =~= seq![b[0]] + b.drop_first());
    } else {
        assert(a =~= b);
    }
}

/// Whether `a` comes before or equals `b` in lexicographic order.
pub fn text_le_exec(a: &[char], b: &[char]) -> (r: bool)
    ensures
        r == text_le(a@, b@),
{
    let mut i: usize = 0;
    assert(a@.skip(0) == a@);
    assert(b@.skip(0) == b@);
    while i < a.len() && i < b.len() && a[i] == b[i]
        invariant
            i <= a@.len(),
            i <= b@.len(),
            text_le(a@, b@) == text_le(a@.skip(i as int), b@.skip(i as int)),
        decreases a.len() - i,
    {
        assert(a@.skip(i as int).drop_first() == a@.skip(i + 1));
        assert(b@.skip(i as int).drop_first() == b@.skip(i + 1));
        i = i + 1;
    }
    if i == a.len() {
        true
    } else if i == b.len() {
        false
    } else {
        a[i] < b[i]
    }
}

} // verus!
