//! Removal of ANSI escape sequences (colours, cursor movement, window titles) from
//! console output.

use vstd::prelude::*;
use crate::text::{
    chars_of, is_subseq, lemma_subseq_prepend_both, lemma_subseq_prepend_other, string_of,
};

verus! {

/// The escape character that starts every ANSI sequence.
pub open spec fn esc() -> char {
    '\u{1b}'
}

/// Whether `c` ends a control sequence (`ESC [ ... c`).
pub open spec fn is_csi_final(c: char) -> bool {
    '@' <= c && c <= '~'
}

/// What is kept of `s[i..]` when the scan is in state `mode`:
/// 0 plain text, 1 just after an escape character, 2 inside a control sequence
/// (`ESC [`), 3 inside an operating-system command (`ESC ]`), 4 inside such a command just
/// after an escape character. Plain text keeps every character but escapes and NULs; an
/// escape followed by any character other than `[` or `]` drops both; a control sequence
/// runs up to and including its final character in `'@'..='~'`; an operating-system
/// command runs up to and including a BEL, or an escape (and a `\` right after it).
pub open spec fn strip_from(s: Seq<char>, i: int, mode: int) -> Seq<char>
    decreases s.len() - i,
{
    if i < 0 || i >= s.len() {
        seq![]
    } else {
        let c = s[i];
        if mode == 1 {
            if c == '[' {
                strip_from(s, i + 1, 2)
            } else if c == ']' {
                strip_from(s, i + 1, 3)
            } else {
                strip_from(s, i + 1, 0)
            }
        } else if mode == 2 {
            if is_csi_final(c) {
                strip_from(s, i + 1, 0)
            } else {
                strip_from(s, i + 1, 2)
            }
        } else if mode == 3 {
            if c == '\u{7}' {
                strip_from(s, i + 1, 0)
            } else if c == esc() {
                strip_from(s, i + 1, 4)
            } else {
                strip_from(s, i + 1, 3)
            }
        } else if mode == 4 && c == '\\' {
            strip_from(s, i + 1, 0)
        } else if c == esc() {
            strip_from(s, i + 1, 1)
        } else if c == '\u{0}' {
            strip_from(s, i + 1, 0)
        } else {
            seq![c] + strip_from(s, i + 1, 0)
        }
    }
}

/// `s` with its ANSI escape sequences and NUL characters removed.
pub open spec fn spec_strip_ansi(s: Seq<char>) -> Seq<char> {
    strip_from(s, 0, 0)
}

/// Removes ANSI escape sequences and NUL characters from `v`.
pub fn strip_ansi_chars(v: &Vec<char>) -> (r: Vec<char>)
    ensures
        r@ == spec_strip_ansi(v@),
{
    let mut out: Vec<char> = Vec::new();
    let mut mode: u8 = 0;
    let mut i: usize = 0;
    while i < v.len()
        invariant
            i <= v.len(),
            mode <= 4,
            out@ + strip_from(v@, i as int, mode as int) == spec_strip_ansi(v@),
        decreases v.len() - i,
    {
        let c = v[i];
        let ghost before = out@;
        if mode == 1 {
            if c == '[' {
                mode = 2;
            } else if c == ']' {
                mode = 3;
            } else {
                mode = 0;
            }
        } else if mode == 2 {
            if '@' <= c && c <= '~' {
                mode = 0;
            }
        } else if mode == 3 {
            if c == '\u{7}' {
                mode = 0;
            } else if c == '\u{1b}' {
                mode = 4;
            }
        } else if mode == 4 && c == '\\' {
            mode = 0;
        } else if c == '\u{1b}' {
            mode = 1;
        } else if c == '\u{0}' {
            mode = 0;
        } else {
            out.push(c);
            mode = 0;
            assert(out@ =~= before + seq![c]);
        }
        i = i + 1;
    }
    assert(out@ + seq![] =~= out@);
    out
}

/// Removes ANSI escape sequences (colours, cursor movements, titles) and NUL characters.
pub fn strip_ansi(s: &str) -> (r: String)
    ensures
        r@ == spec_strip_ansi(s@),
{
    let v = chars_of(s);
    let out = strip_ansi_chars(&v);
    string_of(&out)
}

/// Every character kept by the scan is neither an escape nor a NUL.
proof fn lemma_strip_from_clean(s: Seq<char>, i: int, mode: int)
    ensures
        forall|k: int|
            0 <= k < strip_from(s, i, mode).len() ==> #[trigger] strip_from(s, i, mode)[k] != esc()
                && strip_from(s, i, mode)[k] != '\u{0}',
    decreases s.len() - i,
{
    if 0 <= i < s.len() {
        let c = s[i];
        let out = strip_from(s, i, mode);
        let next_mode: int = if mode == 1 {
            if c == '[' {
                2
            } else if c == ']' {
                3
            } else {
                0
            }
        } else if mode == 2 {
            if is_csi_final(c) {
                0
            } else {
                2
            }
        } else if mode == 3 {
            if c == '\u{7}' {
                0
            } else if c == esc() {
                4
            } else {
                3
            }
        } else if mode == 4 && c == '\\' {
            0
        } else if c == esc() {
            1
        } else {
            0
        };
        let r = strip_from(s, i + 1, next_mode);
        lemma_strip_from_clean(s, i + 1, next_mode);
        if mode != 1 && mode != 2 && mode != 3 && !(mode == 4 && c == '\\') && c != esc() && c
            != '\u{0}' {
            assert(out == seq![c] + r);
            assert forall|k: int| 0 <= k < out.len() implies out[k] != esc() && out[k]
                != '\u{0}' by {
                if k > 0 {
                    assert(out[k] == r[k - 1]);
                }
            }
        } else {
            assert(out == r);
        }
    }
}

/// Text free of escapes and NULs goes through the plain-text scan unchanged.
proof fn lemma_strip_from_plain(s: Seq<char>, i: int)
    requires
        0 <= i <= s.len(),
        forall|k: int| i <= k < s.len() ==> s[k] != esc() && s[k] != '\u{0}',
    ensures
        strip_from(s, i, 0) == s.subrange(i, s.len() as int),
    decreases s.len() - i,
{
    if i < s.len() {
        lemma_strip_from_plain(s, i + 1);
        assert(s.subrange(i, s.len() as int) =~= seq![s[i]] + s.subrange(i + 1, s.len() as int));
    } else {
        assert(s.subrange(i, s.len() as int) =~= seq![]);
    }
}

/// What is left after stripping holds no escape character and no NUL.
pub proof fn lemma_strip_ansi_leaves_no_escape(s: Seq<char>)
    ensures
        forall|k: int|
            0 <= k < spec_strip_ansi(s).len() ==> #[trigger] spec_strip_ansi(s)[k] != esc()
                && spec_strip_ansi(s)[k] != '\u{0}',
{
    lemma_strip_from_clean(s, 0, 0);
}

/// Stripping is idempotent: stripping text that was already stripped changes nothing.
pub proof fn lemma_strip_ansi_idempotent(s: Seq<char>)
    ensures
        spec_strip_ansi(spec_strip_ansi(s)) == spec_strip_ansi(s),
{
    let t = spec_strip_ansi(s);
    lemma_strip_from_clean(s, 0, 0);
    lemma_strip_from_plain(t, 0);
    assert(t.subrange(0, t.len() as int) =~= t);
}

/// Text without escape characters and NULs is left untouched.
pub proof fn lemma_strip_ansi_plain(s: Seq<char>)
    requires
        forall|k: int| 0 <= k < s.len() ==> s[k] != esc() && s[k] != '\u{0}',
    ensures
        spec_strip_ansi(s) == s,
{
    lemma_strip_from_plain(s, 0);
    assert(s.subrange(0, s.len() as int) =~= s);
}

/// What the scan keeps of `s[i..]` is a subsequence of it.
proof fn lemma_strip_from_subseq(s: Seq<char>, i: int, mode: int)
    requires
        0 <= i <= s.len(),
    ensures
        is_subseq(strip_from(s, i, mode), s.subrange(i, s.len() as int)),
    decreases s.len() - i,
{
    if i < s.len() {
        let c = s[i];
        let next_mode: int = if mode == 1 {
            if c == '[' {
                2
            } else if c == ']' {
                3
            } else {
                0
            }
        } else if mode == 2 {
            if is_csi_final(c) {
                0
            } else {
                2
            }
        } else if mode == 3 {
            if c == '\u{7}' {
                0
            } else if c == esc() {
                4
            } else {
                3
            }
        } else if mode == 4 && c == '\\' {
            0
        } else if c == esc() {
            1
        } else {
            0
        };
        let r = strip_from(s, i + 1, next_mode);
        let tail = s.subrange(i + 1, s.len() as int);
        lemma_strip_from_subseq(s, i + 1, next_mode);
        assert(s.subrange(i, s.len() as int) =~= seq![c] + tail);
        if mode != 1 && mode != 2 && mode != 3 && !(mode == 4 && c == '\\') && c != esc() && c
            != '\u{0}' {
            assert(strip_from(s, i, mode) == seq![c] + r);
            lemma_subseq_prepend_both(r, tail, c);
        } else {
            assert(strip_from(s, i, mode) == r);
            lemma_subseq_prepend_other(r, tail, c);
        }
    }
}

/// Stripping only removes characters: what is left is a subsequence of the input.
pub proof fn lemma_strip_ansi_subsequence(s: Seq<char>)
    ensures
        is_subseq(spec_strip_ansi(s), s),
{
    lemma_strip_from_subseq(s, 0, 0);
    assert(s.subrange(0, s.len() as int) =~= s);
}

} // verus!
