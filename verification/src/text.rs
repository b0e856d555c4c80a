//! Character-level text utilities shared by the parsers: conversions between
//! `String` and `Vec<char>`, Unicode whitespace, trimming and line splitting.

use vstd::prelude::*;

verus! {

/// Appends one character to a string (`String::push`).
#[verifier::external_body]
pub(crate) fn push_char(s: &mut String, c: char)
    ensures
        final(s)@ == old(s)@.push(c),
{
    s.push(c);
}

/// The characters of a string slice, in order.
pub fn chars_of(s: &str) -> (r: Vec<char>)
    ensures
        r@ == s@,
{
    let mut v: Vec<char> = Vec::new();
    for c in it: s.chars()
        invariant
            v@ == it.seq().take(it.index() as int),
    {
        v.push(c);
    }
    v
}

/// A string made of the characters `v[lo..hi]`.
pub fn string_of_range(v: &Vec<char>, lo: usize, hi: usize) -> (r: String)
    requires
        lo <= hi <= v.len(),
    ensures
        r@ == v@.subrange(lo as int, hi as int),
{
    let mut s = String::new();
    let mut i: usize = lo;
    while i < hi
        invariant
            lo <= i <= hi <= v.len(),
            s@ == v@.subrange(lo as int, i as int),
        decreases hi - i,
    {
        push_char(&mut s, v[i]);
        i = i + 1;
        assert(s@ =~= v@.subrange(lo as int, i as int));
    }
    s
}

/// A string holding exactly the characters of `v`.
pub fn string_of(v: &Vec<char>) -> (r: String)
    ensures
        r@ == v@,
{
    let r = string_of_range(v, 0, v.len());
    assert(v@.subrange(0, v@.len() as int) =~= v@);
    r
}

/// The characters `v[lo..hi]` as a new vector.
pub fn copy_range(v: &Vec<char>, lo: usize, hi: usize) -> (r: Vec<char>)
    requires
        lo <= hi <= v.len(),
    ensures
        r@ == v@.subrange(lo as int, hi as int),
{
    let mut out: Vec<char> = Vec::new();
    let mut i: usize = lo;
    while i < hi
        invariant
            lo <= i <= hi <= v.len(),
            out@ == v@.subrange(lo as int, i as int),
        decreases hi - i,
    {
        out.push(v[i]);
        i = i + 1;
        assert(out@ =~= v@.subrange(lo as int, i as int));
    }
    out
}

/// A fresh string equal to the slice.
pub fn to_string_of(t: &str) -> (r: String)
    ensures
        r@ == t@,
{
    let mut s = String::new();
    s.append(t);
    assert(s@ =~= t@);
    s
}

/// Whether two strings hold the same characters.
pub fn same_text(a: &str, b: &str) -> (r: bool)
    ensures
        r == (a@ == b@),
{
    let x = chars_of(a);
    let y = chars_of(b);
    if x.len() != y.len() {
        return false;
    }
    let mut i: usize = 0;
    while i < x.len()
        invariant
            i <= x.len() == y.len(),
            x@ == a@,
            y@ == b@,
            forall|j: int| 0 <= j < i ==> x@[j] == y@[j],
        decreases x.len() - i,
    {
        if x[i] != y[i] {
            return false;
        }
        i = i + 1;
    }
    assert(x@ =~= y@);
    true
}

/// Whether `c` has the Unicode `White_Space` property (what `char::is_whitespace` tests).
pub open spec fn is_ws(c: char) -> bool {
    ||| c == '\t'
    ||| c == '\n'
    ||| c == '\u{b}'
    ||| c == '\u{c}'
    ||| c == '\r'
    ||| c == ' '
    ||| c == '\u{85}'
    ||| c == '\u{a0}'
    ||| c == '\u{1680}'
    ||| ('\u{2000}' <= c && c <= '\u{200a}')
    ||| c == '\u{2028}'
    ||| c == '\u{2029}'
    ||| c == '\u{202f}'
    ||| c == '\u{205f}'
    ||| c == '\u{3000}'
}

/// `char::is_whitespace`.
pub fn is_whitespace(c: char) -> (r: bool)
    ensures
        r == is_ws(c),
{
    c == '\t' || c == '\n' || c == '\u{b}' || c == '\u{c}' || c == '\r' || c == ' ' || c
        == '\u{85}' || c == '\u{a0}' || c == '\u{1680}' || ('\u{2000}' <= c && c <= '\u{200a}')
        || c == '\u{2028}' || c == '\u{2029}' || c == '\u{202f}' || c == '\u{205f}' || c
        == '\u{3000}'
}

/// Whether some character of `s` is whitespace.
pub open spec fn has_ws(s: Seq<char>) -> bool {
    exists|i: int| 0 <= i < s.len() && is_ws(#[trigger] s[i])
}

/// `s` without its leading whitespace.
pub open spec fn trim_start(s: Seq<char>) -> Seq<char>
    decreases s.len(),
{
    if s.len() > 0 && is_ws(s[0]) {
        trim_start(s.drop_first())
    } else {
        s
    }
}

/// `s` without its trailing whitespace.
pub open spec fn trim_end(s: Seq<char>) -> Seq<char>
    decreases s.len(),
{
    if s.len() > 0 && is_ws(s.last()) {
        trim_end(s.drop_last())
    } else {
        s
    }
}

/// `s` without leading and trailing whitespace (`str::trim`).
pub open spec fn trim(s: Seq<char>) -> Seq<char> {
    trim_end(trim_start(s))
}

/// Bounds of `v[lo..hi]` once leading whitespace is dropped.
pub fn trim_start_bound(v: &Vec<char>, lo: usize, hi: usize) -> (a: usize)
    requires
        lo <= hi <= v.len(),
    ensures
        lo <= a <= hi,
        v@.subrange(a as int, hi as int) == trim_start(v@.subrange(lo as int, hi as int)),
{
    let mut a = lo;
    while a < hi && is_whitespace(v[a])
        invariant
            lo <= a <= hi <= v.len(),
            trim_start(v@.subrange(a as int, hi as int)) == trim_start(
                v@.subrange(lo as int, hi as int),
            ),
        decreases hi - a,
    {
        assert(v@.subrange(a as int, hi as int).drop_first() =~= v@.subrange(
            a + 1,
            hi as int,
        ));
        a = a + 1;
    }
    a
}

/// Bound of `v[lo..hi]` once trailing whitespace is dropped.
pub fn trim_end_bound(v: &Vec<char>, lo: usize, hi: usize) -> (b: usize)
    requires
        lo <= hi <= v.len(),
    ensures
        lo <= b <= hi,
        v@.subrange(lo as int, b as int) == trim_end(v@.subrange(lo as int, hi as int)),
{
    let mut b = hi;
    while b > lo && is_whitespace(v[b - 1])
        invariant
            lo <= b <= hi <= v.len(),
            trim_end(v@.subrange(lo as int, b as int)) == trim_end(
                v@.subrange(lo as int, hi as int),
            ),
        decreases b - lo,
    {
        assert(v@.subrange(lo as int, b as int).drop_last() =~= v@.subrange(
            lo as int,
            b - 1,
        ));
        b = b - 1;
    }
    b
}

/// `trim(v[lo..hi])` as a new vector.
pub fn trimmed_range(v: &Vec<char>, lo: usize, hi: usize) -> (r: Vec<char>)
    requires
        lo <= hi <= v.len(),
    ensures
        r@ == trim(v@.subrange(lo as int, hi as int)),
{
    let a = trim_start_bound(v, lo, hi);
    let b = trim_end_bound(v, a, hi);
    copy_range(v, a, b)
}

/// `str::trim` on a string slice.
pub fn trim_str(s: &str) -> (r: String)
    ensures
        r@ == trim(s@),
{
    let v = chars_of(s);
    let a = trim_start_bound(&v, 0, v.len());
    let b = trim_end_bound(&v, a, v.len());
    assert(v@.subrange(0, v@.len() as int) =~= v@);
    string_of_range(&v, a, b)
}

/// `l` without one final carriage return.
pub open spec fn strip_cr(l: Seq<char>) -> Seq<char> {
    if l.len() > 0 && l.last() == '\r' {
        l.drop_last()
    } else {
        l
    }
}

/// The lines of `s[start..]`, scanning from `i` for the next line feed: each line ends at a
/// `'\n'` (dropped, together with a `'\r'` just before it); a last line without one is kept
/// as it is.
pub open spec fn lines_from(s: Seq<char>, start: int, i: int) -> Seq<Seq<char>>
    decreases s.len() - i,
{
    if i >= s.len() {
        if start < s.len() {
            seq![s.subrange(start, s.len() as int)]
        } else {
            seq![]
        }
    } else if s[i] == '\n' {
        seq![strip_cr(s.subrange(start, i))] + lines_from(s, i + 1, i + 1)
    } else {
        lines_from(s, start, i + 1)
    }
}

/// The lines of `s`, as `str::lines` yields them.
pub open spec fn lines(s: Seq<char>) -> Seq<Seq<char>> {
    lines_from(s, 0, 0)
}

/// The view of a vector of character vectors.
pub open spec fn seqs_view(v: Seq<Vec<char>>) -> Seq<Seq<char>> {
    v.map_values(|l: Vec<char>| l@)
}

/// Splits `v` into its lines (`str::lines`).
pub fn lines_of(v: &Vec<char>) -> (r: Vec<Vec<char>>)
    ensures
        seqs_view(r@) == lines(v@),
{
    let mut out: Vec<Vec<char>> = Vec::new();
    let mut start: usize = 0;
    let mut i: usize = 0;
    while i < v.len()
        invariant
            start <= i <= v.len(),
            seqs_view(out@) + lines_from(v@, start as int, i as int) == lines(v@),
        decreases v.len() - i,
    {
        if v[i] == '\n' {
            let mut end = i;
            if end > start && v[end - 1] == '\r' {
                end = end - 1;
            }
            let piece = copy_range(v, start, end);
            assert(piece@ == strip_cr(v@.subrange(start as int, i as int))) by {
                if i > start && v@[i - 1] == '\r' {
                    assert(v@.subrange(start as int, i as int).drop_last() =~= v@.subrange(
                        start as int,
                        i - 1,
                    ));
                }
            }
            let ghost before = seqs_view(out@);
            out.push(piece);
            assert(seqs_view(out@) =~= before + seq![piece@]);
            start = i + 1;
        }
        i = i + 1;
    }
    if start < v.len() {
        let piece = copy_range(v, start, v.len());
        let ghost before = seqs_view(out@);
        out.push(piece);
        assert(seqs_view(out@) =~= before + seq![piece@]);
    } else {
        assert(seqs_view(out@) + seq![] =~= seqs_view(out@));
    }
    out
}

/// The texts of a list of strings.
pub open spec fn strings_view(v: Seq<String>) -> Seq<Seq<char>> {
    v.map_values(|s: String| s@)
}

/// Appends a copy of `t` to a list of strings.
pub fn push_arg(v: &mut Vec<String>, t: &str)
    ensures
        strings_view(final(v)@) == strings_view(old(v)@).push(t@),
{
    let s = to_string_of(t);
    v.push(s);
    assert(strings_view(v@) =~= strings_view(old(v)@).push(t@));
}

/// The texts of `ls` joined by single spaces.
pub open spec fn join_spaces(ls: Seq<Seq<char>>) -> Seq<char>
    decreases ls.len(),
{
    if ls.len() == 0 {
        seq![]
    } else if ls.len() == 1 {
        ls[0]
    } else {
        join_spaces(ls.drop_last()) + seq![' '] + ls.last()
    }
}

/// The lines of `v` joined by single spaces.
pub fn join_with_spaces(ls: &Vec<Vec<char>>) -> (r: String)
    ensures
        r@ == join_spaces(seqs_view(ls@)),
{
    let ghost lv = seqs_view(ls@);
    let mut out = String::new();
    let mut i: usize = 0;
    while i < ls.len()
        invariant
            i <= ls.len(),
            lv == seqs_view(ls@),
            out@ == join_spaces(lv.take(i as int)),
        decreases ls.len() - i,
    {
        let ghost before = out@;
        assert(lv.take(i + 1).drop_last() =~= lv.take(i as int));
        assert(lv.take(i + 1).last() == ls@[i as int]@);
        if i > 0 {
            push_char(&mut out, ' ');
        }
        let piece = string_of(&ls[i]);
        out.append(piece.as_str());
        if i == 0 {
            assert(out@ =~= join_spaces(lv.take(i + 1)));
        } else {
            assert(out@ =~= join_spaces(lv.take(i + 1)));
        }
        i = i + 1;
    }
    assert(lv.take(ls.len() as int) =~= lv);
    out
}

/// Whether `a` is a subsequence of `b`: `b` with some of its elements left out.
pub open spec fn is_subseq<A>(a: Seq<A>, b: Seq<A>) -> bool
    decreases b.len(),
{
    if a.len() == 0 {
        true
    } else if b.len() == 0 {
        false
    } else {
        (a.last() == b.last() && is_subseq(a.drop_last(), b.drop_last())) || is_subseq(
            a,
            b.drop_last(),
        )
    }
}

/// A subsequence of `b` stays one when an element is put in front of `b`.
pub proof fn lemma_subseq_prepend_other<A>(a: Seq<A>, b: Seq<A>, c: A)
    requires
        is_subseq(a, b),
    ensures
        is_subseq(a, seq![c] + b),
    decreases b.len(),
{
    let cb = seq![c] + b;
    if a.len() > 0 && b.len() > 0 {
        assert(cb.last() == b.last());
        assert(cb.drop_last() =~= seq![c] + b.drop_last());
        if a.last() == b.last() && is_subseq(a.drop_last(), b.drop_last()) {
            lemma_subseq_prepend_other(a.drop_last(), b.drop_last(), c);
        } else {
            lemma_subseq_prepend_other(a, b.drop_last(), c);
        }
    }
}

/// Putting the same element in front of both keeps a subsequence one.
pub proof fn lemma_subseq_prepend_both<A>(a: Seq<A>, b: Seq<A>, c: A)
    requires
        is_subseq(a, b),
    ensures
        is_subseq(seq![c] + a, seq![c] + b),
    decreases b.len(),
{
    let ca = seq![c] + a;
    let cb = seq![c] + b;
    if b.len() == 0 {
        assert(a.len() == 0);
        assert(ca.drop_last() =~= Seq::<A>::empty());
        assert(cb.drop_last() =~= Seq::<A>::empty());
        assert(ca.last() == c && cb.last() == c);
        assert(is_subseq(ca.drop_last(), cb.drop_last()));
    } else {
        assert(cb.last() == b.last());
        assert(cb.drop_last() =~= seq![c] + b.drop_last());
        if a.len() == 0 {
            lemma_subseq_prepend_both(a, b.drop_last(), c);
            assert(is_subseq(ca, cb.drop_last()));
        } else {
            assert(ca.last() == a.last());
            assert(ca.drop_last() =~= seq![c] + a.drop_last());
            if a.last() == b.last() && is_subseq(a.drop_last(), b.drop_last()) {
                lemma_subseq_prepend_both(a.drop_last(), b.drop_last(), c);
            } else {
                lemma_subseq_prepend_both(a, b.drop_last(), c);
            }
        }
    }
}

/// Whether `p` occurs in `t` at position `i`.
pub open spec fn occurs_at<A>(t: Seq<A>, p: Seq<A>, i: int) -> bool {
    0 <= i && i + p.len() <= t.len() && t.subrange(i, i + p.len()) == p
}

/// Whether `p` occurs somewhere in `t`.
pub open spec fn contains_seq<A>(t: Seq<A>, p: Seq<A>) -> bool {
    exists|i: int| occurs_at(t, p, i)
}

/// `p` occurs in `a + p + b` right after `a`, and stays where it is once more is put around.
pub proof fn lemma_occurs_middle<A>(a: Seq<A>, p: Seq<A>, b: Seq<A>)
    ensures
        occurs_at(a + p + b, p, a.len() as int),
        contains_seq(a + p + b, p),
{
    assert((a + p + b).subrange(a.len() as int, (a.len() + p.len()) as int) =~= p);
    assert(occurs_at(a + p + b, p, a.len() as int));
}

/// A sequence of sequences, flattened, is what comes before the `k`-th, then the `k`-th,
/// then what comes after it.
pub proof fn lemma_flatten_around<A>(ts: Seq<Seq<A>>, k: int)
    requires
        0 <= k < ts.len(),
    ensures
        ts.flatten() == ts.take(k).flatten() + ts[k] + ts.skip(k + 1).flatten(),
{
    assert(ts =~= ts.take(k) + ts.skip(k));
    vstd::seq_lib::lemma_flatten_concat(ts.take(k), ts.skip(k));
    let rest = ts.skip(k);
    assert(rest.flatten() == rest[0] + rest.drop_first().flatten());
    assert(rest.drop_first() =~= ts.skip(k + 1));
    assert(ts.take(k).flatten() + (ts[k] + ts.skip(k + 1).flatten()) =~= ts.take(k).flatten()
        + ts[k] + ts.skip(k + 1).flatten());
}

/// What occurs in one of the sequences occurs in them flattened, with anything put before.
pub proof fn lemma_contains_in_flatten<A>(head: Seq<A>, ts: Seq<Seq<A>>, k: int, p: Seq<A>)
    requires
        0 <= k < ts.len(),
        contains_seq(ts[k], p),
    ensures
        contains_seq(head + ts.flatten(), p),
{
    let i = choose|i: int| occurs_at(ts[k], p, i);
    lemma_flatten_around(ts, k);
    let pre = head + ts.take(k).flatten();
    let whole = head + ts.flatten();
    assert(whole =~= pre + ts[k] + ts.skip(k + 1).flatten());
    let j = pre.len() + i;
    assert(whole.subrange(j, j + p.len()) =~= ts[k].subrange(i, i + p.len()));
    assert(occurs_at(whole, p, j));
}

} // verus!
