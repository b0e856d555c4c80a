//! The parser of winget's console tables (`upgrade`, `search`, `list`). It does not read
//! the header's words, which change with the system language: it finds the dashed
//! separator line, takes the column positions from the line just above it, and cuts every
//! following row at those positions.

use vstd::prelude::*;
use crate::text::{chars_of, lines, lines_of, seqs_view, trim, trimmed_range};

verus! {

/// A dash or a space: what a separator line is made of.
pub open spec fn is_dash_or_space(c: char) -> bool {
    c == '-' || c == ' '
}

/// Whether `t` holds nothing but dashes and spaces.
pub open spec fn only_dashes_and_spaces(t: Seq<char>) -> bool {
    forall|i: int| 0 <= i < t.len() ==> is_dash_or_space(#[trigger] t[i])
}

/// The number of dashes in `t`.
pub open spec fn dash_count(t: Seq<char>) -> nat {
    t.filter(|c: char| c == '-').len()
}

/// A separator line: once trimmed, at least eight dashes and nothing but dashes and spaces.
pub open spec fn is_separator(line: Seq<char>) -> bool {
    dash_count(trim(line)) >= 8 && only_dashes_and_spaces(trim(line))
}

/// The first separator line at index `i` or after.
pub open spec fn first_separator_from(ls: Seq<Seq<char>>, i: int) -> Option<int>
    decreases ls.len() - i,
{
    if i < 0 || i >= ls.len() {
        None
    } else if is_separator(ls[i]) {
        Some(i)
    } else {
        first_separator_from(ls, i + 1)
    }
}

/// The index of the header: the line just above the first separator line that has a line
/// above it.
pub open spec fn header_index(ls: Seq<Seq<char>>) -> Option<int> {
    match first_separator_from(ls, 1) {
        Some(j) => Some(j - 1),
        None => None,
    }
}

/// A blank of the header line: a space or a tab.
pub open spec fn is_blank(c: char) -> bool {
    c == ' ' || c == '\t'
}

/// Whether a column starts at position `i` of the header `h`: a non-blank character at the
/// start of the line or right after a blank.
pub open spec fn starts_column(h: Seq<char>, i: int) -> bool {
    !is_blank(h[i]) && (i == 0 || is_blank(h[i - 1]))
}

/// The positions (in characters) at which the columns of header `h` start, in order.
pub open spec fn spec_column_starts(h: Seq<char>) -> Seq<int> {
    Seq::new(h.len(), |i: int| i).filter(|i: int| starts_column(h, i))
}

/// The cell of `line` between positions `s` and `e`, trimmed; empty when the line ends
/// before `s`.
pub open spec fn cell(line: Seq<char>, s: int, e: int) -> Seq<char> {
    if s >= line.len() {
        seq![]
    } else {
        trim(line.subrange(s, if e < line.len() { e } else { line.len() as int }))
    }
}

/// The cells of `line`, cut at the column starts `st`; the last column runs to the end.
pub open spec fn row_fields(line: Seq<char>, st: Seq<int>) -> Seq<Seq<char>> {
    Seq::new(
        st.len(),
        |i: int| cell(line, st[i], if i + 1 < st.len() { st[i + 1] } else { line.len() as int }),
    )
}

/// A line below the table that is not a row: blank, or only dashes and spaces.
pub open spec fn is_filler(line: Seq<char>) -> bool {
    only_dashes_and_spaces(trim(line))
}

/// The rows of the table in `text`, each as its list of trimmed cells: every line below
/// the separator that is not filler, cut at the header's column starts. No rows when there
/// is no separator with a header above it, or when the header has fewer than two columns.
pub open spec fn table_rows(text: Seq<char>) -> Seq<Seq<Seq<char>>> {
    let ls = lines(text);
    match header_index(ls) {
        Some(h) => {
            let st = spec_column_starts(ls[h]);
            if st.len() < 2 {
                seq![]
            } else {
                ls.skip(h + 2).filter(|l: Seq<char>| !is_filler(l)).map_values(
                    |l: Seq<char>| row_fields(l, st),
                )
            }
        },
        None => seq![],
    }
}

/// The view of a parsed row.
pub open spec fn row_view(r: Vec<Vec<char>>) -> Seq<Seq<char>> {
    seqs_view(r@)
}

/// The view of parsed rows.
pub open spec fn rows_view(rs: Seq<Vec<Vec<char>>>) -> Seq<Seq<Seq<char>>> {
    rs.map_values(|r: Vec<Vec<char>>| row_view(r))
}

/// Whether `t` holds nothing but dashes and spaces (exec).
fn all_dashes_and_spaces(t: &Vec<char>) -> (r: bool)
    ensures
        r == only_dashes_and_spaces(t@),
{
    let mut i: usize = 0;
    while i < t.len()
        invariant
            i <= t.len(),
            forall|j: int| 0 <= j < i ==> is_dash_or_space(#[trigger] t@[j]),
        decreases t.len() - i,
    {
        if t[i] != '-' && t[i] != ' ' {
            return false;
        }
        i = i + 1;
    }
    true
}

/// The number of dashes in `t` (exec).
fn count_dashes(t: &Vec<char>) -> (r: usize)
    ensures
        r == dash_count(t@),
{
    let mut n: usize = 0;
    let mut i: usize = 0;
    while i < t.len()
        invariant
            i <= t.len(),
            n == dash_count(t@.take(i as int)),
            n <= i,
        decreases t.len() - i,
    {
        assert(t@.take(i + 1) =~= t@.take(i as int).push(t@[i as int]));
        proof {
            t@.take(i as int).lemma_filter_push(t@[i as int], |c: char| c == '-');
        }
        if t[i] == '-' {
            n = n + 1;
        }
        i = i + 1;
    }
    assert(t@.take(t.len() as int) =~= t@);
    n
}

/// Whether `line` is a separator line (exec).
fn is_separator_line(line: &Vec<char>) -> (r: bool)
    ensures
        r == is_separator(line@),
{
    let t = trimmed_range(line, 0, line.len());
    assert(line@.subrange(0, line@.len() as int) =~= line@);
    count_dashes(&t) >= 8 && all_dashes_and_spaces(&t)
}

/// Whether `line` is filler below the table (exec).
fn is_filler_line(line: &Vec<char>) -> (r: bool)
    ensures
        r == is_filler(line@),
{
    let t = trimmed_range(line, 0, line.len());
    assert(line@.subrange(0, line@.len() as int) =~= line@);
    all_dashes_and_spaces(&t)
}

/// The index of the header line: the one just above the first separator line that has a
/// line above it.
pub fn find_header(ls: &Vec<Vec<char>>) -> (r: Option<usize>)
    ensures
        r matches Some(h) ==> header_index(seqs_view(ls@)) == Some(h as int) && h + 1 < ls@.len(),
        r is None ==> header_index(seqs_view(ls@)) is None,
{
    let ghost v = seqs_view(ls@);
    let mut i: usize = 1;
    while i < ls.len()
        invariant
            1 <= i,
            v == seqs_view(ls@),
            first_separator_from(v, i as int) == first_separator_from(v, 1),
        decreases ls.len() - i,
    {
        if is_separator_line(&ls[i]) {
            assert(v[i as int] == ls@[i as int]@);
            return Some(i - 1);
        }
        assert(v[i as int] == ls@[i as int]@);
        i = i + 1;
    }
    None
}

/// Whether `c` is a blank of the header line (exec).
fn blank(c: char) -> (r: bool)
    ensures
        r == is_blank(c),
{
    c == ' ' || c == '\t'
}

/// The positions (in characters) at which the columns of the header line start.
pub fn column_starts(h: &Vec<char>) -> (r: Vec<usize>)
    ensures
        r@.map_values(|x: usize| x as int) == spec_column_starts(h@),
        forall|a: int, b: int| 0 <= a < b < r@.len() ==> r@[a] < r@[b],
        forall|a: int| 0 <= a < r@.len() ==> r@[a] < h@.len(),
{
    let ghost p = |i: int| starts_column(h@, i);
    let mut starts: Vec<usize> = Vec::new();
    let mut prev_space = true;
    let mut i: usize = 0;
    while i < h.len()
        invariant
            i <= h.len(),
            p == (|i: int| starts_column(h@, i)),
            prev_space == (i == 0 || is_blank(h@[i - 1])),
            starts@.map_values(|x: usize| x as int) == Seq::new(i as nat, |k: int| k).filter(p),
            forall|a: int, b: int| 0 <= a < b < starts@.len() ==> starts@[a] < starts@[b],
            forall|a: int| 0 <= a < starts@.len() ==> starts@[a] < i,
        decreases h.len() - i,
    {
        let c = h[i];
        let is_space = blank(c);
        assert(Seq::new((i + 1) as nat, |k: int| k) =~= Seq::new(i as nat, |k: int| k).push(
            i as int,
        ));
        proof {
            Seq::new(i as nat, |k: int| k).lemma_filter_push(i as int, p);
        }
        if !is_space && prev_space {
            let ghost before = starts@;
            starts.push(i);
            assert(starts@.map_values(|x: usize| x as int) =~= before.map_values(
                |x: usize| x as int,
            ).push(i as int));
        }
        prev_space = is_space;
        i = i + 1;
    }
    starts
}

/// The cell of `line` between positions `start` and `end`, trimmed; empty when the line
/// ends before `start`.
pub fn slice_chars(line: &Vec<char>, start: usize, end: usize) -> (r: Vec<char>)
    requires
        start < line@.len() ==> start <= end,
    ensures
        r@ == cell(line@, start as int, end as int),
{
    if start >= line.len() {
        return Vec::new();
    }
    let e = if end < line.len() {
        end
    } else {
        line.len()
    };
    trimmed_range(line, start, e)
}

/// The cells of `line`, cut at the column starts `st`.
fn row_cells(line: &Vec<char>, st: &Vec<usize>) -> (r: Vec<Vec<char>>)
    requires
        forall|a: int, b: int| 0 <= a < b < st@.len() ==> st@[a] < st@[b],
    ensures
        seqs_view(r@) == row_fields(line@, st@.map_values(|x: usize| x as int)),
{
    let ghost sti = st@.map_values(|x: usize| x as int);
    let mut out: Vec<Vec<char>> = Vec::new();
    let mut i: usize = 0;
    while i < st.len()
        invariant
            i <= st.len(),
            sti == st@.map_values(|x: usize| x as int),
            forall|a: int, b: int| 0 <= a < b < st@.len() ==> st@[a] < st@[b],
            seqs_view(out@) == row_fields(line@, sti).take(i as int),
        decreases st.len() - i,
    {
        let s = st[i];
        let e = if i + 1 < st.len() {
            st[i + 1]
        } else {
            line.len()
        };
        assert(s < line@.len() ==> s <= e) by {
            if i + 1 < st.len() {
                assert(st@[i as int] < st@[i + 1]);
            }
        }
        let c = slice_chars(line, s, e);
        let ghost before = seqs_view(out@);
        out.push(c);
        assert(seqs_view(out@) =~= row_fields(line@, sti).take(i + 1)) by {
            assert(seqs_view(out@) =~= before.push(c@));
            assert(row_fields(line@, sti).take(i + 1) =~= row_fields(line@, sti).take(
                i as int,
            ).push(row_fields(line@, sti)[i as int]));
        }
        i = i + 1;
    }
    assert(row_fields(line@, sti).take(st.len() as int) =~= row_fields(line@, sti));
    out
}

/// Cuts the table in `text` into rows of trimmed cells (see `table_rows`).
pub fn parse_rows(text: &str) -> (r: Vec<Vec<Vec<char>>>)
    ensures
        rows_view(r@) == table_rows(text@),
{
    let chars = chars_of(text);
    let ls = lines_of(&chars);
    let ghost lv = seqs_view(ls@);
    let h = match find_header(&ls) {
        Some(h) => h,
        None => {
            return Vec::new();
        },
    };
    assert(lv[h as int] == ls@[h as int]@);
    let st = column_starts(&ls[h]);
    let ghost sti = st@.map_values(|x: usize| x as int);
    assert(sti == spec_column_starts(lines(text@)[h as int]));
    if st.len() < 2 {
        assert(sti.len() == st@.len());
        let none: Vec<Vec<Vec<char>>> = Vec::new();
        assert(rows_view(none@) =~= seq![]);
        assert(lv == lines(text@));
        assert(header_index(lv) == Some(h as int));
        assert(spec_column_starts(lv[h as int]).len() < 2);
        return none;
    }
    assert(h + 2 <= ls.len());
    let ghost keep = |l: Seq<char>| !is_filler(l);
    let ghost cut = |l: Seq<char>| row_fields(l, sti);
    let mut rows: Vec<Vec<Vec<char>>> = Vec::new();
    let mut k: usize = h + 2;
    while k < ls.len()
        invariant
            h + 2 <= k <= ls.len(),
            lv == seqs_view(ls@),
            sti == st@.map_values(|x: usize| x as int),
            forall|a: int, b: int| 0 <= a < b < st@.len() ==> st@[a] < st@[b],
            keep == (|l: Seq<char>| !is_filler(l)),
            cut == (|l: Seq<char>| row_fields(l, sti)),
            rows_view(rows@) == lv.subrange(h + 2, k as int).filter(keep).map_values(cut),
        decreases ls.len() - k,
    {
        assert(lv.subrange(h + 2, k + 1) =~= lv.subrange(h + 2, k as int).push(lv[k as int]));
        proof {
            lv.subrange(h + 2, k as int).lemma_filter_push(lv[k as int], keep);
        }
        assert(lv[k as int] == ls@[k as int]@);
        if !is_filler_line(&ls[k]) {
            let cells = row_cells(&ls[k], &st);
            let ghost before = rows_view(rows@);
            rows.push(cells);
            assert(rows_view(rows@) =~= before.push(cells@.map_values(|l: Vec<char>| l@)));
            assert(lv.subrange(h + 2, k as int).filter(keep).push(lv[k as int]).map_values(cut)
                =~= lv.subrange(h + 2, k as int).filter(keep).map_values(cut).push(
                cut(lv[k as int]),
            ));
        }
        k = k + 1;
    }
    assert(lv.subrange(h + 2, ls.len() as int) =~= lv.skip(h + 2));
    rows
}

/// The first separator found from `i` is a line at or after `i`.
proof fn lemma_first_separator_bounds(ls: Seq<Seq<char>>, i: int)
    ensures
        first_separator_from(ls, i) matches Some(j) ==> 0 <= i <= j < ls.len(),
    decreases ls.len() - i,
{
    if 0 <= i < ls.len() {
        lemma_first_separator_bounds(ls, i + 1);
    }
}

/// Up to the first separator found from `i`, no line is a separator.
proof fn lemma_first_separator_before(ls: Seq<Seq<char>>, i: int, j: int, k: int)
    requires
        first_separator_from(ls, i) == Some(j),
        i <= k < j,
    ensures
        !is_separator(ls[k]),
    decreases ls.len() - i,
{
    if i < k {
        lemma_first_separator_before(ls, i + 1, j, k);
    }
}

/// Two lists of lines that agree from `i` on, except at index `h` where neither line is a
/// separator, have their first separator from `i` at the same place.
proof fn lemma_first_separator_agree(ls1: Seq<Seq<char>>, ls2: Seq<Seq<char>>, i: int, h: int)
    requires
        ls1.len() == ls2.len(),
        forall|k: int| i <= k < ls1.len() && k != h ==> ls1[k] == ls2[k],
        i <= h < ls1.len() ==> !is_separator(ls1[h]) && !is_separator(ls2[h]),
    ensures
        first_separator_from(ls1, i) == first_separator_from(ls2, i),
    decreases ls1.len() - i,
{
    if 0 <= i < ls1.len() {
        lemma_first_separator_agree(ls1, ls2, i + 1, h);
    }
}

/// The table is found and cut by position alone: putting in place of the header line any
/// other line that is not a separator and starts its columns at the same positions (the
/// same header in another language, say) leaves the rows unchanged.
pub proof fn lemma_rows_ignore_header_words(t1: Seq<char>, t2: Seq<char>, h: int)
    requires
        lines(t1).len() == lines(t2).len(),
        forall|k: int| 0 <= k < lines(t1).len() && k != h ==> lines(t1)[k] == lines(t2)[k],
        header_index(lines(t1)) == Some(h),
        h > 0 ==> !is_separator(lines(t2)[h]),
        spec_column_starts(lines(t1)[h]) == spec_column_starts(lines(t2)[h]),
    ensures
        table_rows(t1) == table_rows(t2),
{
    let ls1 = lines(t1);
    let ls2 = lines(t2);
    if h > 0 {
        lemma_first_separator_before(ls1, 1, h + 1, h);
    }
    lemma_first_separator_bounds(ls1, 1);
    lemma_first_separator_agree(ls1, ls2, 1, h);
    assert(header_index(ls2) == Some(h));
    assert(ls1.skip(h + 2) =~= ls2.skip(h + 2));
}

} // verus!
