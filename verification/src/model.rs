//! The mathematical model of the text transforms.
//!
//! A text is a `Seq<char>`.  Splitting into lines treats `'\n'` as the
//! separator, drops the empty segment after a trailing `'\n'`, and removes
//! the single `'\r'` that a `"\r\n"` line ending leaves at the end of a
//! `'\n'`-terminated segment; a final segment that no `'\n'` terminates is
//! kept whole.
//! Every transform of the library is specified here as a function on
//! sequences; the executable code is proved to return exactly these values.

use vstd::prelude::*;

verus! {

/// The characters with the Unicode `White_Space` property: the set that
/// trailing-whitespace removal strips and that decides whether a line is
/// blank.
pub open spec fn is_ws_char(c: char) -> bool {
    ||| c as u32 == 0x09
    ||| c as u32 == 0x0A
    ||| c as u32 == 0x0B
    ||| c as u32 == 0x0C
    ||| c as u32 == 0x0D
    ||| c as u32 == 0x20
    ||| c as u32 == 0x85
    ||| c as u32 == 0xA0
    ||| c as u32 == 0x1680
    ||| (0x2000 <= c as u32 && c as u32 <= 0x200A)
    ||| c as u32 == 0x2028
    ||| c as u32 == 0x2029
    ||| c as u32 == 0x202F
    ||| c as u32 == 0x205F
    ||| c as u32 == 0x3000
}

/// Tab expansion: every `'\t'` becomes four spaces; all other characters are
/// kept as they are.
pub open spec fn expand_tabs(s: Seq<char>) -> Seq<char>
    decreases s.len(),
{
    if s.len() == 0 {
        Seq::empty()
    } else if s[0] == '\t' {
        seq![' ', ' ', ' ', ' '] + expand_tabs(s.skip(1))
    } else {
        seq![s[0]] + expand_tabs(s.skip(1))
    }
}

/// The number of tab characters in `s`.
pub open spec fn tab_count(s: Seq<char>) -> nat
    decreases s.len(),
{
    if s.len() == 0 {
        0
    } else if s[0] == '\t' {
        1 + tab_count(s.skip(1))
    } else {
        tab_count(s.skip(1))
    }
}

/// The index of the first `'\n'` in `s`, or `s.len()` if there is none.
pub open spec fn find_nl(s: Seq<char>) -> int
    decreases s.len(),
{
    if s.len() == 0 {
        0
    } else if s[0] == '\n' {
        0
    } else {
        1 + find_nl(s.skip(1))
    }
}

/// Removes one `'\r'` from the end of a line segment, if present: the
/// remnant of a `"\r\n"` line ending once the `'\n'` is taken as separator.
pub open spec fn chop_cr(l: Seq<char>) -> Seq<char> {
    if l.len() > 0 && l.last() == '\r' {
        l.drop_last()
    } else {
        l
    }
}

/// Splits a text into lines at each `'\n'`.  The segment after a trailing
/// `'\n'` is empty and is dropped, so a text ending in `'\n'` contributes no
/// final empty line; the empty text has no lines at all.  A line terminated
/// by `'\n'` loses a single trailing `'\r'` — the remnant of a `"\r\n"`
/// ending — while a final line that no `'\n'` terminates is kept as it
/// stands, `'\r'` and all.
pub open spec fn split_lines(s: Seq<char>) -> Seq<Seq<char>>
    decreases s.len(),
    via split_lines_decreases
{
    if s.len() == 0 {
        Seq::empty()
    } else {
        let k = find_nl(s);
        if k == s.len() {
            seq![s]
        } else {
            seq![chop_cr(s.take(k))] + split_lines(s.skip(k + 1))
        }
    }
}

/// `find_nl` points at the first `'\n'`: it is within bounds, lands on a
/// `'\n'` unless there is none, and nothing before it is a `'\n'`.
pub proof fn lemma_find_nl(s: Seq<char>)
    ensures
        0 <= find_nl(s) <= s.len(),
        find_nl(s) < s.len() ==> s[find_nl(s)] == '\n',
        forall|i: int| 0 <= i < find_nl(s) ==> s[i] != '\n',
    decreases s.len(),
{
    if s.len() == 0 {
    } else if s[0] == '\n' {
    } else {
        lemma_find_nl(s.skip(1));
        assert forall|i: int| 0 <= i < find_nl(s) implies s[i] != '\n' by {
            if i > 0 {
                assert(s.skip(1)[i - 1] == s[i]);
            }
        }
    }
}

#[via_fn]
proof fn split_lines_decreases(s: Seq<char>) {
    lemma_find_nl(s);
}

/// If nothing before `k` is a `'\n'` and `k` is a `'\n'` or the end, then
/// `find_nl` is exactly `k`.
pub proof fn lemma_find_nl_is(s: Seq<char>, k: int)
    requires
        0 <= k <= s.len(),
        forall|i: int| 0 <= i < k ==> s[i] != '\n',
        k < s.len() ==> s[k] == '\n',
    ensures
        find_nl(s) == k,
    decreases k,
{
    if k == 0 {
    } else {
        assert(s[0] != '\n');
        lemma_find_nl_is(s.skip(1), k - 1);
    }
}

/// The tail of a joined line sequence: each line preceded by the `'\n'`
/// separator.
pub open spec fn join_rest(ls: Seq<Seq<char>>) -> Seq<char>
    decreases ls.len(),
{
    if ls.len() == 0 {
        Seq::empty()
    } else {
        seq!['\n'] + ls[0] + join_rest(ls.skip(1))
    }
}

/// Joins lines with a single `'\n'` between consecutive lines, and nothing
/// before the first or after the last.
pub open spec fn join_lines(ls: Seq<Seq<char>>) -> Seq<char> {
    if ls.len() == 0 {
        Seq::empty()
    } else {
        ls[0] + join_rest(ls.skip(1))
    }
}

/// Removes every whitespace character from the end of a line.
pub open spec fn trim_end_ws(l: Seq<char>) -> Seq<char>
    decreases l.len(),
{
    if l.len() > 0 && is_ws_char(l.last()) {
        trim_end_ws(l.drop_last())
    } else {
        l
    }
}

/// A line is blank when it holds nothing but whitespace.
pub open spec fn is_blank(l: Seq<char>) -> bool {
    forall|i: int| 0 <= i < l.len() ==> is_ws_char(l[i])
}

/// Backslash-continuation cleanup of one line: if the line ends, after
/// stripping trailing whitespace, with a backslash, the stripped form is
/// kept; otherwise the line is untouched.
pub open spec fn fix_line(l: Seq<char>) -> Seq<char> {
    if trim_end_ws(l).len() > 0 && trim_end_ws(l).last() == '\\' {
        trim_end_ws(l)
    } else {
        l
    }
}

/// Blank-line collapsing over a line sequence: every non-blank line is kept
/// as it is; a blank line is emitted as one empty line unless the line just
/// before it was blank too.  `prev_blank` says whether the line preceding
/// `ls` was blank.
pub open spec fn collapse_lines(ls: Seq<Seq<char>>, prev_blank: bool) -> Seq<Seq<char>>
    decreases ls.len(),
{
    if ls.len() == 0 {
        Seq::empty()
    } else if is_blank(ls[0]) {
        if prev_blank {
            collapse_lines(ls.skip(1), true)
        } else {
            seq![Seq::<char>::empty()] + collapse_lines(ls.skip(1), true)
        }
    } else {
        seq![ls[0]] + collapse_lines(ls.skip(1), false)
    }
}

/// Line-ending normalization: each non-overlapping `"\r\n"`, found scanning
/// left to right, becomes a single `'\n'`; a `'\r'` not followed by `'\n'`
/// stays.
pub open spec fn replace_crlf(s: Seq<char>) -> Seq<char>
    decreases s.len(),
{
    if s.len() >= 2 && s[0] == '\r' && s[1] == '\n' {
        seq!['\n'] + replace_crlf(s.skip(2))
    } else if s.len() >= 1 {
        seq![s[0]] + replace_crlf(s.skip(1))
    } else {
        Seq::empty()
    }
}

/// The view of a sequence of character vectors: the lines they hold.
pub open spec fn line_views(ls: Seq<Vec<char>>) -> Seq<Seq<char>> {
    ls.map_values(|l: Vec<char>| l@)
}

/// Trailing-whitespace removal over a whole text.
pub open spec fn trailing_removed(s: Seq<char>) -> Seq<char> {
    join_lines(split_lines(s).map_values(|l: Seq<char>| trim_end_ws(l)))
}

/// Backslash-continuation cleanup over a whole text.
pub open spec fn backslash_fixed(s: Seq<char>) -> Seq<char> {
    join_lines(split_lines(s).map_values(|l: Seq<char>| fix_line(l)))
}

/// Blank-line collapsing over a whole text.
pub open spec fn blanks_collapsed(s: Seq<char>) -> Seq<char> {
    join_lines(collapse_lines(split_lines(s), false))
}

/// The `Everything` pipeline: tab expansion, trailing-whitespace removal,
/// backslash cleanup, blank-line collapsing, then line-ending normalization.
pub open spec fn all_cleaned(s: Seq<char>) -> Seq<char> {
    replace_crlf(blanks_collapsed(backslash_fixed(trailing_removed(expand_tabs(s)))))
}

/// The `Syntax-only` pipeline: tab expansion, backslash cleanup, then
/// line-ending normalization.
pub open spec fn syntax_cleaned(s: Seq<char>) -> Seq<char> {
    replace_crlf(backslash_fixed(expand_tabs(s)))
}

/// The `Git-friendly` pipeline, which `Size-reduction` shares:
/// trailing-whitespace removal, then blank-line collapsing.
pub open spec fn git_cleaned(s: Seq<char>) -> Seq<char> {
    blanks_collapsed(trailing_removed(s))
}

/// No tab character occurs in `s`.
pub open spec fn no_tabs(s: Seq<char>) -> bool {
    forall|i: int| 0 <= i < s.len() ==> s[i] != '\t'
}

/// No `'\n'` occurs in `l`: the shape of a line.
pub open spec fn no_nl(l: Seq<char>) -> bool {
    forall|i: int| 0 <= i < l.len() ==> l[i] != '\n'
}

/// The line carries no trailing whitespace.
pub open spec fn ws_trimmed(l: Seq<char>) -> bool {
    l.len() == 0 || !is_ws_char(l.last())
}

/// No `"\r\n"` occurs in `s`.
pub open spec fn no_crlf(s: Seq<char>) -> bool {
    forall|i: int| 0 <= i && i + 1 < s.len() ==> !(#[trigger] s[i] == '\r' && s[i + 1] == '\n')
}

/// Drops a final empty line, as one round of splitting after joining does.
pub open spec fn drop_trailing_empty(ls: Seq<Seq<char>>) -> Seq<Seq<char>> {
    if ls.len() > 0 && ls.last().len() == 0 {
        ls.drop_last()
    } else {
        ls
    }
}

/// Removes one trailing `'\r'` from every line.
pub open spec fn chop_all(ls: Seq<Seq<char>>) -> Seq<Seq<char>> {
    ls.map_values(|l: Seq<char>| chop_cr(l))
}

/// The lines that splitting the join of `ls` yields: a final empty line is
/// dropped, every `'\n'`-terminated line loses one trailing `'\r'`, and a
/// last unterminated line stays whole.
pub open spec fn resplit_lines(ls: Seq<Seq<char>>) -> Seq<Seq<char>> {
    if ls.len() == 0 {
        Seq::empty()
    } else if ls.last().len() == 0 {
        chop_all(ls.drop_last())
    } else {
        chop_all(ls.drop_last()).push(ls.last())
    }
}

/// Every line is free of `'\n'`.
pub open spec fn all_no_nl(ls: Seq<Seq<char>>) -> bool {
    forall|i: int| 0 <= i < ls.len() ==> no_nl(#[trigger] ls[i])
}

/// Every line is free of trailing whitespace.
pub open spec fn all_ws_trimmed(ls: Seq<Seq<char>>) -> bool {
    forall|i: int| 0 <= i < ls.len() ==> ws_trimmed(#[trigger] ls[i])
}

/// Every line is free of tabs.
pub open spec fn all_no_tabs(ls: Seq<Seq<char>>) -> bool {
    forall|i: int| 0 <= i < ls.len() ==> no_tabs(#[trigger] ls[i])
}

/// Every blank line is the empty line.
pub open spec fn blanks_empty(ls: Seq<Seq<char>>) -> bool {
    forall|i: int| 0 <= i < ls.len() ==> (is_blank(#[trigger] ls[i]) ==> ls[i].len() == 0)
}

/// No two consecutive lines are empty.
pub open spec fn no_adjacent_empties(ls: Seq<Seq<char>>) -> bool {
    forall|i: int|
        0 <= i && i + 1 < ls.len() ==> !((#[trigger] ls[i]).len() == 0 && ls[i + 1].len() == 0)
}

/// No two consecutive lines are blank.
pub open spec fn no_adjacent_blanks(ls: Seq<Seq<char>>) -> bool {
    forall|i: int|
        0 <= i && i + 1 < ls.len() ==> !(is_blank(#[trigger] ls[i]) && is_blank(ls[i + 1]))
}

/// No `"\r\r\n"` occurs in `s`.
pub open spec fn no_crcrlf(s: Seq<char>) -> bool {
    forall|i: int|
        0 <= i && i + 2 < s.len() ==> !(#[trigger] s[i] == '\r' && s[i + 1] == '\r' && s[i + 2]
            == '\n')
}

} // verus!
