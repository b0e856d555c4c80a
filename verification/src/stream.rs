//! Live relay of a running winget's output. What winget writes arrives in chunks; it is cut
//! into lines as the chunks come. A line ended by a carriage return alone is a progress
//! update ("transient": it replaces the line before it); a line ended by a line feed (or by
//! CR LF) is committed.

use vstd::prelude::*;
use crate::ansi::{spec_strip_ansi, strip_ansi_chars};
use crate::decode::{from_utf8_lossy, utf8_lossy};
use vstd::utf8::{encode_utf8, encode_utf8_decode_utf8, encode_utf8_valid_utf8};
use crate::text::{
    chars_of, copy_range, trim, trim_end, trim_end_bound, trimmed_range,
};

verus! {

/// The first line break (`'\n'` or `'\r'`) of `s` at index `i` or after.
pub open spec fn first_break_from(s: Seq<char>, i: int) -> Option<int>
    decreases s.len() - i,
{
    if i < 0 || i >= s.len() {
        None
    } else if s[i] == '\n' || s[i] == '\r' {
        Some(i)
    } else {
        first_break_from(s, i + 1)
    }
}

/// A raw line and whether it is transient.
pub open spec fn prepend_line(line: (Seq<char>, bool), rest: (Seq<(Seq<char>, bool)>, Seq<char>))
    -> (Seq<(Seq<char>, bool)>, Seq<char>) {
    (seq![line] + rest.0, rest.1)
}

/// Cuts the pending text `acc` into raw lines, each with whether it is transient, and what
/// is left pending. A `'\n'` ends a committed line; `"\r\n"` too; a `'\r'` followed by
/// anything else ends a transient line. A `'\r'` that is the last character waits for more
/// text (unless the output has ended: then it ends a transient line). At the end of the
/// output, text without a line break is a last committed line.
pub open spec fn split_pending(acc: Seq<char>, eof: bool) -> (Seq<(Seq<char>, bool)>, Seq<char>)
    decreases acc.len(),
{
    match first_break_from(acc, 0) {
        None => if eof && acc.len() > 0 {
            (seq![(acc, false)], seq![])
        } else {
            (seq![], acc)
        },
        Some(i) => if i < 0 || i >= acc.len() {
            (seq![], acc)
        } else if acc[i] == '\n' {
            prepend_line((acc.take(i), false), split_pending(acc.skip(i + 1), eof))
        } else if i + 1 >= acc.len() && !eof {
            (seq![], acc)
        } else if i + 1 < acc.len() && acc[i + 1] == '\n' {
            prepend_line((acc.take(i), false), split_pending(acc.skip(i + 2), eof))
        } else {
            prepend_line((acc.take(i), true), split_pending(acc.skip(i + 1), eof))
        },
    }
}

/// A raw line as it is shown: without ANSI sequences and trailing whitespace; nothing when
/// no visible text is left.
pub open spec fn shown_line(raw: (Seq<char>, bool)) -> Option<(Seq<char>, bool)> {
    let text = trim_end(spec_strip_ansi(raw.0));
    if trim(text).len() == 0 {
        None
    } else {
        Some((text, raw.1))
    }
}

/// The lines shown for the raw lines `raws`, in order.
pub open spec fn shown_lines(raws: Seq<(Seq<char>, bool)>) -> Seq<(Seq<char>, bool)>
    decreases raws.len(),
{
    if raws.len() == 0 {
        seq![]
    } else {
        (match shown_line(raws[0]) {
            Some(l) => seq![l],
            None => seq![],
        }) + shown_lines(raws.drop_first())
    }
}

/// A line of winget's output, ready to be shown.
#[derive(Debug)]
pub struct OutputLine {
    pub text: String,
    pub transient: bool,
}

impl View for OutputLine {
    type V = (Seq<char>, bool);

    open spec fn view(&self) -> (Seq<char>, bool) {
        (self.text@, self.transient)
    }
}

/// The views of a list of output lines.
pub open spec fn output_view(v: Seq<OutputLine>) -> Seq<(Seq<char>, bool)> {
    v.map_values(|l: OutputLine| l@)
}

/// The first line break of `v` at index `i` or after.
fn find_break(v: &Vec<char>, i: usize) -> (r: Option<usize>)
    requires
        i <= v.len(),
    ensures
        match first_break_from(v@, i as int) {
            Some(k) => r == Some(k as usize) && i <= k < v.len(),
            None => r is None,
        },
    decreases v.len() - i,
{
    if i >= v.len() {
        None
    } else if v[i] == '\n' || v[i] == '\r' {
        Some(i)
    } else {
        find_break(v, i + 1)
    }
}

/// The line shown for a raw line: without ANSI sequences and trailing whitespace; `None`
/// when no visible text is left.
pub fn commit(raw: &Vec<char>, transient: bool) -> (r: Option<OutputLine>)
    ensures
        match shown_line((raw@, transient)) {
            Some(l) => r matches Some(o) && o@ == l,
            None => r is None,
        },
{
    let text = strip_ansi_chars(raw);
    let b = trim_end_bound(&text, 0, text.len());
    assert(text@.subrange(0, text@.len() as int) =~= text@);
    let visible = trimmed_range(&text, 0, b);
    if visible.len() == 0 {
        return None;
    }
    Some(OutputLine { text: crate::text::string_of_range(&text, 0, b), transient })
}

/// Cuts the pending text into lines (see `split_pending`), keeps what is left pending in
/// `acc`, and returns the lines to show.
pub fn process_acc(acc: &mut Vec<char>, eof: bool) -> (r: Vec<OutputLine>)
    ensures
        output_view(r@) == shown_lines(split_pending(old(acc)@, eof).0),
        final(acc)@ == split_pending(old(acc)@, eof).1,
{
    let ghost acc0 = acc@;
    let mut out: Vec<OutputLine> = Vec::new();
    loop
        invariant
            acc0 == old(acc)@,
            output_view(out@) + shown_lines(split_pending(acc@, eof).0) == shown_lines(
                split_pending(acc0, eof).0,
            ),
            split_pending(acc@, eof).1 == split_pending(acc0, eof).1,
        decreases acc@.len(),
    {
        let ghost cur = acc@;
        let n = acc.len();
        let i = match find_break(acc, 0) {
            Some(i) => i,
            None => {
                if eof && n > 0 {
                    let raw = copy_range(acc, 0, n);
                    assert(raw@ =~= cur);
                    let shown = commit(&raw, false);
                    *acc = Vec::new();
                    assert(split_pending(cur, eof).0 == seq![(cur, false)]);
                    assert(seq![(cur, false)].drop_first() =~= seq![]);
                    match shown {
                        Some(o) => {
                            let ghost before = output_view(out@);
                            out.push(o);
                            assert(output_view(out@) =~= before + seq![o@]);
                        },
                        None => {},
                    }
                    assert(split_pending(acc@, eof).0 =~= seq![]);
                    assert(shown_lines(split_pending(acc@, eof).0) =~= seq![]);
                    assert(output_view(out@) =~= output_view(out@) + shown_lines(
                        split_pending(acc@, eof).0,
                    ));
                }
                assert(shown_lines(split_pending(acc@, eof).0) =~= seq![]);
                assert(output_view(out@) =~= output_view(out@) + shown_lines(
                    split_pending(acc@, eof).0,
                ));
                return out;
            },
        };
        let (len, skip, transient) = if acc[i] == '\n' {
            (i, i + 1, false)
        } else if i + 1 >= n && !eof {
            assert(split_pending(cur, eof).0 =~= seq![]);
            assert(output_view(out@) =~= output_view(out@) + shown_lines(
                split_pending(acc@, eof).0,
            ));
            return out;
        } else if i + 1 < n && acc[i + 1] == '\n' {
            (i, i + 2, false)
        } else {
            (i, i + 1, true)
        };
        let raw = copy_range(acc, 0, len);
        let rest = copy_range(acc, skip, n);
        assert(raw@ =~= cur.take(i as int));
        assert(rest@ =~= cur.skip(skip as int));
        let shown = commit(&raw, transient);
        let ghost tail = split_pending(rest@, eof);
        assert(split_pending(cur, eof) == prepend_line((raw@, transient), tail));
        assert((seq![(raw@, transient)] + tail.0).drop_first() =~= tail.0);
        match shown {
            Some(o) => {
                let ghost before = output_view(out@);
                out.push(o);
                assert(output_view(out@) =~= before + seq![o@]);
            },
            None => {},
        }
        *acc = rest;
    }
}

/// Cuts winget's output into lines as it arrives in chunks.
#[derive(Debug)]
pub struct LineSplitter {
    acc: Vec<char>,
}

impl View for LineSplitter {
    type V = Seq<char>;

    /// The text received and not yet cut into lines.
    closed spec fn view(&self) -> Seq<char> {
        self.acc@
    }
}

impl LineSplitter {
    /// A splitter that has received nothing.
    pub fn new() -> (r: LineSplitter)
        ensures
            r@ == Seq::<char>::empty(),
    {
        LineSplitter { acc: Vec::new() }
    }

    /// Takes the next chunk of output (decoded as UTF-8, invalid sequences replaced) and
    /// returns the lines it completes.
    pub fn feed(&mut self, chunk: &[u8]) -> (r: Vec<OutputLine>)
        ensures
            output_view(r@) == shown_lines(split_pending(old(self)@ + utf8_lossy(chunk@), false).0),
            final(self)@ == split_pending(old(self)@ + utf8_lossy(chunk@), false).1,
    {
        let text = from_utf8_lossy(chunk);
        let cs = chars_of(text.as_str());
        let mut i: usize = 0;
        while i < cs.len()
            invariant
                i <= cs.len(),
                cs@ == utf8_lossy(chunk@),
                self.acc@ == old(self).acc@ + cs@.take(i as int),
            decreases cs.len() - i,
        {
            self.acc.push(cs[i]);
            i = i + 1;
            assert(self.acc@ =~= old(self).acc@ + cs@.take(i as int));
        }
        assert(cs@.take(cs.len() as int) =~= cs@);
        process_acc(&mut self.acc, false)
    }

    /// The output has ended: returns the lines still pending, the last one included.
    pub fn finish(&mut self) -> (r: Vec<OutputLine>)
        ensures
            output_view(r@) == shown_lines(split_pending(old(self)@, true).0),
            final(self)@ == Seq::<char>::empty(),
    {
        let r = process_acc(&mut self.acc, true);
        proof {
            lemma_split_pending_at_end(old(self).acc@);
        }
        r
    }
}

/// At the end of the output nothing is left pending.
proof fn lemma_split_pending_at_end(acc: Seq<char>)
    ensures
        split_pending(acc, true).1 == Seq::<char>::empty(),
    decreases acc.len(),
{
    lemma_first_break_bounds(acc, 0);
    match first_break_from(acc, 0) {
        None => {
            if acc.len() == 0 {
                assert(acc =~= Seq::<char>::empty());
            }
        },
        Some(i) => {
            if 0 <= i < acc.len() {
                if acc[i] == '\n' {
                    lemma_split_pending_at_end(acc.skip(i + 1));
                } else if i + 1 < acc.len() && acc[i + 1] == '\n' {
                    lemma_split_pending_at_end(acc.skip(i + 2));
                } else {
                    lemma_split_pending_at_end(acc.skip(i + 1));
                }
            }
        },
    }
}

/// A line break found in `a` is also the first one in `a + b`.
proof fn lemma_first_break_prefix(a: Seq<char>, b: Seq<char>, j: int)
    requires
        0 <= j,
        first_break_from(a, j) is Some,
    ensures
        first_break_from(a + b, j) == first_break_from(a, j),
    decreases a.len() - j,
{
    if j < a.len() && !(a[j] == '\n' || a[j] == '\r') {
        lemma_first_break_prefix(a, b, j + 1);
    }
}

/// The first line break of a text lies inside it.
proof fn lemma_first_break_bounds(a: Seq<char>, j: int)
    ensures
        first_break_from(a, j) matches Some(i) ==> 0 <= j <= i < a.len() && (a[i] == '\n'
            || a[i] == '\r'),
    decreases a.len() - j,
{
    if 0 <= j < a.len() {
        lemma_first_break_bounds(a, j + 1);
    }
}

/// Output cut in two chunks gives the same lines as the whole: cutting `a` while more may
/// come, then what was left pending followed by `b`, yields exactly the lines (and leaves
/// exactly the text pending) that cutting `a + b` at once would.
pub proof fn lemma_split_pending_chunks(a: Seq<char>, b: Seq<char>, eof: bool)
    ensures
        split_pending(a + b, eof).0 == split_pending(a, false).0 + split_pending(
            split_pending(a, false).1 + b,
            eof,
        ).0,
        split_pending(a + b, eof).1 == split_pending(split_pending(a, false).1 + b, eof).1,
    decreases a.len(),
{
    let first = split_pending(a, false);
    lemma_first_break_bounds(a, 0);
    match first_break_from(a, 0) {
        None => {
            assert(first.0 =~= seq![]);
            assert(first.0 + split_pending(first.1 + b, eof).0 =~= split_pending(a + b, eof).0);
        },
        Some(i) => {
            lemma_first_break_prefix(a, b, 0);
            assert((a + b).take(i) =~= a.take(i));
            if a[i] == '\n' {
                assert((a + b).skip(i + 1) =~= a.skip(i + 1) + b);
                lemma_split_pending_chunks(a.skip(i + 1), b, eof);
                let rest = split_pending(a.skip(i + 1), false);
                assert(first.0 =~= seq![(a.take(i), false)] + rest.0);
                assert(split_pending(a + b, eof).0 =~= first.0 + split_pending(first.1 + b, eof).0);
            } else if i + 1 >= a.len() {
                assert(first.0 =~= seq![]);
                assert(first.0 + split_pending(first.1 + b, eof).0 =~= split_pending(a + b, eof).0);
            } else if a[i + 1] == '\n' {
                assert((a + b)[i + 1] == a[i + 1]);
                assert((a + b).skip(i + 2) =~= a.skip(i + 2) + b);
                lemma_split_pending_chunks(a.skip(i + 2), b, eof);
                let rest = split_pending(a.skip(i + 2), false);
                assert(first.0 =~= seq![(a.take(i), false)] + rest.0);
                assert(split_pending(a + b, eof).0 =~= first.0 + split_pending(first.1 + b, eof).0);
            } else {
                assert((a + b)[i + 1] == a[i + 1]);
                assert((a + b).skip(i + 1) =~= a.skip(i + 1) + b);
                lemma_split_pending_chunks(a.skip(i + 1), b, eof);
                let rest = split_pending(a.skip(i + 1), false);
                assert(first.0 =~= seq![(a.take(i), true)] + rest.0);
                assert(split_pending(a + b, eof).0 =~= first.0 + split_pending(first.1 + b, eof).0);
            }
        },
    }
}

/// A line break: a line feed or a carriage return.
pub open spec fn is_break(c: char) -> bool {
    c == '\n' || c == '\r'
}

/// `s` without its line breaks.
pub open spec fn without_breaks(s: Seq<char>) -> Seq<char> {
    s.filter(|c: char| !is_break(c))
}

/// The texts of raw lines, in order.
pub open spec fn raw_texts(ls: Seq<(Seq<char>, bool)>) -> Seq<Seq<char>> {
    ls.map_values(|l: (Seq<char>, bool)| l.0)
}

/// No text between index `j` and the first line break after it is a line break.
proof fn lemma_no_break_before(a: Seq<char>, j: int)
    requires
        0 <= j,
    ensures
        first_break_from(a, j) matches Some(i) ==> forall|k: int|
            j <= k < i ==> !is_break(#[trigger] a[k]),
        first_break_from(a, j) is None ==> forall|k: int|
            j <= k < a.len() ==> !is_break(#[trigger] a[k]),
    decreases a.len() - j,
{
    if j < a.len() && !is_break(a[j]) {
        lemma_no_break_before(a, j + 1);
    }
}

/// Removing the line breaks of a text that has none leaves it as it is.
proof fn lemma_without_breaks_clean(s: Seq<char>)
    requires
        forall|k: int| 0 <= k < s.len() ==> !is_break(#[trigger] s[k]),
    ensures
        without_breaks(s) == s,
    decreases s.len(),
{
    reveal(Seq::filter);
    if s.len() > 0 {
        lemma_without_breaks_clean(s.drop_last());
        assert(s.drop_last().push(s.last()) =~= s);
    } else {
        assert(s =~= Seq::<char>::empty());
    }
}

/// The pieces of `acc` around a line break of one or two characters at `i`.
proof fn lemma_without_breaks_around(acc: Seq<char>, i: int, n: int)
    requires
        0 <= i,
        1 <= n <= 2,
        i + n <= acc.len(),
        forall|k: int| 0 <= k < i ==> !is_break(#[trigger] acc[k]),
        forall|k: int| i <= k < i + n ==> is_break(#[trigger] acc[k]),
    ensures
        without_breaks(acc) == acc.take(i) + without_breaks(acc.skip(i + n)),
{
    let p = |c: char| !is_break(c);
    let mid = acc.subrange(i, i + n);
    assert(acc =~= acc.take(i) + mid + acc.skip(i + n));
    Seq::filter_distributes_over_add(acc.take(i) + mid, acc.skip(i + n), p);
    Seq::filter_distributes_over_add(acc.take(i), mid, p);
    assert forall|k: int| 0 <= k < acc.take(i).len() implies !is_break(#[trigger] acc.take(i)[k]) by {
        assert(acc.take(i)[k] == acc[k]);
    }
    lemma_without_breaks_clean(acc.take(i));
    let e = Seq::<char>::empty();
    assert(e.filter(p) =~= e) by {
        reveal(Seq::filter);
    }
    e.lemma_filter_push(acc[i], p);
    assert(is_break(acc[i]));
    if n == 1 {
        assert(mid =~= e.push(acc[i]));
    } else {
        assert(is_break(acc[i + 1]));
        e.push(acc[i]).lemma_filter_push(acc[i + 1], p);
        assert(mid =~= e.push(acc[i]).push(acc[i + 1]));
    }
    assert(mid.filter(p) =~= e);
}

/// One step of `lemma_split_pending_keeps_text`: a first raw line `acc[..i]` ended by a
/// line break of `n` characters, and what the rest is cut into.
proof fn lemma_keeps_text_step(acc: Seq<char>, eof: bool, i: int, n: int, transient: bool)
    requires
        0 <= i,
        1 <= n <= 2,
        i + n <= acc.len(),
        forall|k: int| 0 <= k < i ==> !is_break(#[trigger] acc[k]),
        forall|k: int| i <= k < i + n ==> is_break(#[trigger] acc[k]),
        split_pending(acc, eof) == prepend_line(
            (acc.take(i), transient),
            split_pending(acc.skip(i + n), eof),
        ),
        forall|k: int, j: int|
            0 <= k < split_pending(acc.skip(i + n), eof).0.len() && 0 <= j < split_pending(
                acc.skip(i + n),
                eof,
            ).0[k].0.len() ==> !is_break(#[trigger] split_pending(acc.skip(i + n), eof).0[k].0[j]),
        raw_texts(split_pending(acc.skip(i + n), eof).0).flatten() + without_breaks(
            split_pending(acc.skip(i + n), eof).1,
        ) == without_breaks(acc.skip(i + n)),
    ensures
        forall|k: int, j: int|
            0 <= k < split_pending(acc, eof).0.len() && 0 <= j < split_pending(acc, eof).0[k].0.len()
                ==> !is_break(#[trigger] split_pending(acc, eof).0[k].0[j]),
        raw_texts(split_pending(acc, eof).0).flatten() + without_breaks(split_pending(acc, eof).1)
            == without_breaks(acc),
{
    let sp = split_pending(acc, eof);
    let tail = split_pending(acc.skip(i + n), eof);
    lemma_without_breaks_around(acc, i, n);
    assert(raw_texts(sp.0) =~= seq![acc.take(i)] + raw_texts(tail.0));
    assert((seq![acc.take(i)] + raw_texts(tail.0)).drop_first() =~= raw_texts(tail.0));
    assert(raw_texts(sp.0).flatten() =~= acc.take(i) + raw_texts(tail.0).flatten());
    assert(raw_texts(sp.0).flatten() + without_breaks(sp.1) =~= without_breaks(acc));
    assert forall|k: int, j: int| 0 <= k < sp.0.len() && 0 <= j < sp.0[k].0.len() implies !is_break(
        #[trigger] sp.0[k].0[j],
    ) by {
        if k > 0 {
            assert(sp.0[k] == tail.0[k - 1]);
        } else {
            assert(sp.0[0].0 == acc.take(i));
            assert(acc.take(i)[j] == acc[j]);
        }
    }
}

/// Cutting text into lines loses nothing but line breaks: no raw line holds a line break,
/// and the raw lines, one after the other, followed by what is left pending (its line
/// breaks removed), are the text without its line breaks.
pub proof fn lemma_split_pending_keeps_text(acc: Seq<char>, eof: bool)
    ensures
        forall|k: int, j: int|
            0 <= k < split_pending(acc, eof).0.len() && 0 <= j < split_pending(acc, eof).0[k].0.len()
                ==> !is_break(#[trigger] split_pending(acc, eof).0[k].0[j]),
        raw_texts(split_pending(acc, eof).0).flatten() + without_breaks(split_pending(acc, eof).1)
            == without_breaks(acc),
    decreases acc.len(),
{
    let sp = split_pending(acc, eof);
    lemma_first_break_bounds(acc, 0);
    lemma_no_break_before(acc, 0);
    match first_break_from(acc, 0) {
        None => {
            if eof && acc.len() > 0 {
                lemma_without_breaks_clean(acc);
                assert(raw_texts(sp.0) =~= seq![acc]);
                seq![acc].lemma_flatten_singleton();
                assert(without_breaks(sp.1) =~= Seq::<char>::empty()) by {
                    reveal(Seq::filter);
                }
                assert(raw_texts(sp.0).flatten() + without_breaks(sp.1) =~= without_breaks(acc));
            } else {
                assert(raw_texts(sp.0) =~= Seq::<Seq<char>>::empty());
                assert(raw_texts(sp.0).flatten() + without_breaks(sp.1) =~= without_breaks(acc));
            }
        },
        Some(i) => {
            if acc[i] == '\n' {
                lemma_split_pending_keeps_text(acc.skip(i + 1), eof);
                lemma_keeps_text_step(acc, eof, i, 1, false);
            } else if i + 1 >= acc.len() && !eof {
                assert(raw_texts(sp.0) =~= Seq::<Seq<char>>::empty());
                assert(raw_texts(sp.0).flatten() + without_breaks(sp.1) =~= without_breaks(acc));
            } else if i + 1 < acc.len() && acc[i + 1] == '\n' {
                lemma_split_pending_keeps_text(acc.skip(i + 2), eof);
                lemma_keeps_text_step(acc, eof, i, 2, false);
            } else {
                lemma_split_pending_keeps_text(acc.skip(i + 1), eof);
                lemma_keeps_text_step(acc, eof, i, 1, true);
            }
        },
    }
}

/// The raw lines completed by feeding the text chunks `chunks`, in order, to a splitter
/// holding `pending`, and what is left pending after the last one.
pub open spec fn feed_chunks(pending: Seq<char>, chunks: Seq<Seq<char>>) -> (
    Seq<(Seq<char>, bool)>,
    Seq<char>,
)
    decreases chunks.len(),
{
    if chunks.len() == 0 {
        (seq![], pending)
    } else {
        let first = split_pending(pending + chunks[0], false);
        let rest = feed_chunks(first.1, chunks.drop_first());
        (first.0 + rest.0, rest.1)
    }
}

/// Output cut into any number of chunks gives the same lines as the whole: feeding the
/// chunks one by one and then cutting what is left pending yields exactly the raw lines
/// (and leaves exactly the text pending) that cutting all the text at once would.
pub proof fn lemma_feed_chunks(pending: Seq<char>, chunks: Seq<Seq<char>>, eof: bool)
    ensures
        feed_chunks(pending, chunks).0 + split_pending(feed_chunks(pending, chunks).1, eof).0
            == split_pending(pending + chunks.flatten(), eof).0,
        split_pending(feed_chunks(pending, chunks).1, eof).1 == split_pending(
            pending + chunks.flatten(),
            eof,
        ).1,
    decreases chunks.len(),
{
    if chunks.len() == 0 {
        assert(pending + chunks.flatten() =~= pending);
        assert(seq![] + split_pending(pending, eof).0 =~= split_pending(pending, eof).0);
    } else {
        let c0 = chunks[0];
        let rest = chunks.drop_first();
        let first = split_pending(pending + c0, false);
        lemma_feed_chunks(first.1, rest, eof);
        lemma_split_pending_chunks(pending + c0, rest.flatten(), eof);
        assert(chunks.flatten() == c0 + rest.flatten());
        assert(pending + chunks.flatten() =~= (pending + c0) + rest.flatten());
        let fr = feed_chunks(first.1, rest);
        assert(feed_chunks(pending, chunks) == (first.0 + fr.0, fr.1));
        assert((first.0 + fr.0) + split_pending(fr.1, eof).0 =~= first.0 + (fr.0 + split_pending(
            fr.1,
            eof,
        ).0));
    }
}

/// The lines shown for two runs of raw lines are those of the first, then those of the
/// second.
proof fn lemma_shown_lines_concat(a: Seq<(Seq<char>, bool)>, b: Seq<(Seq<char>, bool)>)
    ensures
        shown_lines(a + b) == shown_lines(a) + shown_lines(b),
    decreases a.len(),
{
    if a.len() == 0 {
        assert(a + b =~= b);
        assert(shown_lines(a) + shown_lines(b) =~= shown_lines(b));
    } else {
        lemma_shown_lines_concat(a.drop_first(), b);
        assert((a + b).drop_first() =~= a.drop_first() + b);
        assert((a + b)[0] == a[0]);
    }
}

/// UTF-8 encoding of joined texts is the joined encodings.
proof fn lemma_encode_utf8_concat(a: Seq<char>, b: Seq<char>)
    ensures
        encode_utf8(a + b) == encode_utf8(a) + encode_utf8(b),
    decreases a.len(),
{
    if a.len() == 0 {
        assert(a + b =~= b);
        assert(encode_utf8(a) + encode_utf8(b) =~= encode_utf8(b));
    } else {
        lemma_encode_utf8_concat(a.drop_first(), b);
        assert((a + b).drop_first() =~= a.drop_first() + b);
        assert((a + b)[0] == a[0]);
        assert(encode_utf8(a + b) =~= encode_utf8(a) + encode_utf8(b));
    }
}

/// The UTF-8 encoding of texts put one after the other is their encodings one after the
/// other.
proof fn lemma_encode_utf8_flatten(texts: Seq<Seq<char>>)
    ensures
        encode_utf8(texts.flatten()) == texts.map_values(|t: Seq<char>| encode_utf8(t)).flatten(),
    decreases texts.len(),
{
    let enc = texts.map_values(|t: Seq<char>| encode_utf8(t));
    if texts.len() == 0 {
        assert(enc =~= Seq::<Seq<u8>>::empty());
        assert(texts.flatten() =~= Seq::<char>::empty());
        assert(encode_utf8(texts.flatten()) =~= Seq::<u8>::empty());
    } else {
        lemma_encode_utf8_flatten(texts.drop_first());
        lemma_encode_utf8_concat(texts[0], texts.drop_first().flatten());
        assert(enc.drop_first() =~= texts.drop_first().map_values(|t: Seq<char>| encode_utf8(t)));
        assert(enc.flatten() == enc[0] + enc.drop_first().flatten());
        assert(texts.flatten() == texts[0] + texts.drop_first().flatten());
    }
}

/// The lines shown for UTF-8 output that arrives in byte chunks, each cut at a character
/// boundary and decoded on its own (as `LineSplitter::feed` does), then ended (as
/// `LineSplitter::finish` does), are those shown for the whole output decoded and cut at
/// once: they do not depend on where the output was cut.
pub proof fn lemma_byte_chunks_give_same_lines(texts: Seq<Seq<char>>)
    ensures
        ({
            let bytes = texts.map_values(|t: Seq<char>| encode_utf8(t));
            let fed = feed_chunks(seq![], bytes.map_values(|b: Seq<u8>| utf8_lossy(b)));
            shown_lines(fed.0) + shown_lines(split_pending(fed.1, true).0) == shown_lines(
                split_pending(utf8_lossy(bytes.flatten()), true).0,
            )
        }),
{
    let bytes = texts.map_values(|t: Seq<char>| encode_utf8(t));
    let decoded = bytes.map_values(|b: Seq<u8>| utf8_lossy(b));
    assert forall|k: int| 0 <= k < texts.len() implies #[trigger] decoded[k] == texts[k] by {
        encode_utf8_valid_utf8(texts[k]);
        encode_utf8_decode_utf8(texts[k]);
    }
    assert(decoded =~= texts);
    lemma_encode_utf8_flatten(texts);
    encode_utf8_valid_utf8(texts.flatten());
    encode_utf8_decode_utf8(texts.flatten());
    assert(utf8_lossy(bytes.flatten()) == texts.flatten());
    lemma_feed_chunks(seq![], texts, true);
    assert(Seq::<char>::empty() + texts.flatten() =~= texts.flatten());
    let fed = feed_chunks(seq![], texts);
    lemma_shown_lines_concat(fed.0, split_pending(fed.1, true).0);
}

} // verus!
