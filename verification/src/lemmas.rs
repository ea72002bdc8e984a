//! Lemmas about the model: how splitting undoes joining, what the line
//! transforms leave behind, and when each transform is the identity.

use vstd::prelude::*;

verus! {

use crate::model::all_no_nl;
use crate::model::all_no_tabs;
use crate::model::all_ws_trimmed;
use crate::model::blanks_collapsed;
use crate::model::blanks_empty;
use crate::model::chop_all;
use crate::model::chop_cr;
use crate::model::collapse_lines;
use crate::model::drop_trailing_empty;
use crate::model::expand_tabs;
use crate::model::find_nl;
use crate::model::fix_line;
use crate::model::is_blank;
use crate::model::is_ws_char;
use crate::model::join_lines;
use crate::model::join_rest;
use crate::model::lemma_find_nl;
use crate::model::lemma_find_nl_is;
use crate::model::no_adjacent_blanks;
use crate::model::no_adjacent_empties;
use crate::model::no_crlf;
use crate::model::no_nl;
use crate::model::no_tabs;
use crate::model::replace_crlf;
use crate::model::resplit_lines;
use crate::model::split_lines;
use crate::model::tab_count;
use crate::model::trailing_removed;
use crate::model::trim_end_ws;
use crate::model::ws_trimmed;

/// Tab expansion leaves no tab behind, and lengthens the text by three
/// characters for each tab it replaces.
pub proof fn lemma_expand_tabs_props(s: Seq<char>)
    ensures
        no_tabs(expand_tabs(s)),
        expand_tabs(s).len() == s.len() + 3 * tab_count(s),
    decreases s.len(),
{
    if s.len() == 0 {
    } else {
        lemma_expand_tabs_props(s.skip(1));
        let rest = expand_tabs(s.skip(1));
        if s[0] == '\t' {
            assert forall|i: int| 0 <= i < expand_tabs(s).len() implies expand_tabs(s)[i]
                != '\t' by {
                if i >= 4 {
                    assert(expand_tabs(s)[i] == rest[i - 4]);
                }
            }
        } else {
            assert forall|i: int| 0 <= i < expand_tabs(s).len() implies expand_tabs(s)[i]
                != '\t' by {
                if i >= 1 {
                    assert(expand_tabs(s)[i] == rest[i - 1]);
                }
            }
        }
    }
}

/// On a text without tabs, tab expansion changes nothing.
pub proof fn lemma_expand_tabs_id(s: Seq<char>)
    requires
        no_tabs(s),
    ensures
        expand_tabs(s) == s,
    decreases s.len(),
{
    if s.len() == 0 {
        assert(expand_tabs(s) =~= s);
    } else {
        assert forall|i: int| 0 <= i < s.skip(1).len() implies s.skip(1)[i] != '\t' by {
            assert(s.skip(1)[i] == s[i + 1]);
        }
        lemma_expand_tabs_id(s.skip(1));
        assert(expand_tabs(s) =~= s);
    }
}

/// Trimming yields a prefix of the line with no whitespace at its end, and
/// keeps the line free of `'\n'` and of tabs if it was.
pub proof fn lemma_trim_props(l: Seq<char>)
    ensures
        ws_trimmed(trim_end_ws(l)),
        trim_end_ws(l).len() <= l.len(),
        trim_end_ws(l) == l.take(trim_end_ws(l).len() as int),
        no_nl(l) ==> no_nl(trim_end_ws(l)),
        no_tabs(l) ==> no_tabs(trim_end_ws(l)),
    decreases l.len(),
{
    if l.len() > 0 && is_ws_char(l.last()) {
        lemma_trim_props(l.drop_last());
        let k = trim_end_ws(l).len() as int;
        assert(l.drop_last().take(k) =~= l.take(k));
        assert forall|i: int| 0 <= i < k implies trim_end_ws(l)[i] == l[i] by {}
    } else {
        assert(l.take(l.len() as int) =~= l);
    }
}

/// A line without trailing whitespace is left alone by trimming.
pub proof fn lemma_trim_id(l: Seq<char>)
    requires
        ws_trimmed(l),
    ensures
        trim_end_ws(l) == l,
{
}

/// Backslash cleanup of a single line is idempotent.
pub proof fn lemma_fix_line_idempotent(l: Seq<char>)
    ensures
        fix_line(fix_line(l)) == fix_line(l),
{
    if trim_end_ws(l).len() > 0 && trim_end_ws(l).last() == '\\' {
        lemma_trim_props(l);
        lemma_trim_id(trim_end_ws(l));
    }
}

/// Every line produced by splitting is free of `'\n'`, and free of tabs if
/// the text was.
pub proof fn lemma_split_elems(s: Seq<char>)
    ensures
        all_no_nl(split_lines(s)),
        no_tabs(s) ==> all_no_tabs(split_lines(s)),
    decreases s.len(),
{
    if s.len() == 0 {
    } else {
        lemma_find_nl(s);
        let k = find_nl(s);
        if k == s.len() {
            assert(no_nl(s));
        } else {
            if no_tabs(s) {
                assert forall|i: int| 0 <= i < s.skip(k + 1).len() implies #[trigger] s.skip(
                    k + 1,
                )[i] != '\t' by {
                    assert(s.skip(k + 1)[i] == s[k + 1 + i]);
                }
            }
            lemma_split_elems(s.skip(k + 1));
            let head = chop_cr(s.take(k));
            assert forall|i: int| 0 <= i < head.len() implies head[i] == s[i] by {}
            assert forall|j: int| 0 <= j < split_lines(s).len() implies no_nl(
                #[trigger] split_lines(s)[j],
            ) by {
                if j >= 1 {
                    assert(split_lines(s)[j] == split_lines(s.skip(k + 1))[j - 1]);
                }
            }
            if no_tabs(s) {
                assert forall|j: int| 0 <= j < split_lines(s).len() implies no_tabs(
                    #[trigger] split_lines(s)[j],
                ) by {
                    if j >= 1 {
                        assert(split_lines(s)[j] == split_lines(s.skip(k + 1))[j - 1]);
                    }
                }
            }
        }
    }
}

/// Splitting a text made of a `'\n'`-free part, a `'\n'`, and a remainder
/// yields the first part as the first line, then the lines of the
/// remainder.
pub proof fn lemma_split_concat(a: Seq<char>, b: Seq<char>)
    requires
        no_nl(a),
    ensures
        split_lines(a + seq!['\n'] + b) == seq![chop_cr(a)] + split_lines(b),
{
    let s = a + seq!['\n'] + b;
    assert forall|i: int| 0 <= i < a.len() implies s[i] != '\n' by {
        assert(s[i] == a[i]);
    }
    assert(s[a.len() as int] == '\n');
    lemma_find_nl_is(s, a.len() as int);
    assert(s.take(a.len() as int) =~= a);
    assert(s.skip(a.len() as int + 1) =~= b);
}

/// Joining two or more lines is the first line, a `'\n'`, then the join of
/// the rest.
pub proof fn lemma_join_unfold(ls: Seq<Seq<char>>)
    requires
        ls.len() >= 2,
    ensures
        join_lines(ls) == ls[0] + seq!['\n'] + join_lines(ls.skip(1)),
{
    assert(ls.skip(1)[0] == ls[1]);
    assert(ls.skip(1).skip(1) =~= ls.skip(2));
    assert(join_lines(ls) =~= ls[0] + seq!['\n'] + join_lines(ls.skip(1)));
}

/// Splitting the join of `'\n'`-free lines gives the lines back in
/// [`resplit_lines`] shape: a final empty line is dropped, each
/// `'\n'`-terminated line loses one trailing `'\r'`, and a last
/// unterminated line survives whole.
pub proof fn lemma_split_join(ls: Seq<Seq<char>>)
    requires
        all_no_nl(ls),
    ensures
        split_lines(join_lines(ls)) == resplit_lines(ls),
    decreases ls.len(),
{
    if ls.len() == 0 {
        assert(resplit_lines(ls) =~= Seq::<Seq<char>>::empty());
    } else if ls.len() == 1 {
        assert(join_lines(ls) =~= ls[0]);
        if ls[0].len() == 0 {
            assert(chop_all(ls.drop_last()) =~= Seq::<Seq<char>>::empty());
        } else {
            lemma_find_nl_is(ls[0], ls[0].len() as int);
            assert(split_lines(join_lines(ls)) =~= seq![ls[0]]);
            assert(chop_all(ls.drop_last()).push(ls.last()) =~= seq![ls[0]]);
        }
    } else {
        lemma_join_unfold(ls);
        lemma_split_concat(ls[0], join_lines(ls.skip(1)));
        assert forall|i: int| 0 <= i < ls.skip(1).len() implies no_nl(#[trigger] ls.skip(1)[i]) by {
            assert(ls.skip(1)[i] == ls[i + 1]);
        }
        lemma_split_join(ls.skip(1));
        assert(split_lines(join_lines(ls)) =~= seq![chop_cr(ls[0])] + split_lines(
            join_lines(ls.skip(1)),
        ));
        let tail = ls.skip(1);
        assert(ls.last() == tail.last());
        assert(ls.drop_last() =~= seq![ls[0]] + tail.drop_last());
        assert(chop_all(ls.drop_last()) =~= seq![chop_cr(ls[0])] + chop_all(tail.drop_last()));
        if ls.last().len() == 0 {
            assert(resplit_lines(ls) =~= seq![chop_cr(ls[0])] + resplit_lines(tail));
        } else {
            assert(chop_all(ls.drop_last()).push(ls.last()) =~= seq![chop_cr(ls[0])] + chop_all(
                tail.drop_last(),
            ).push(tail.last()));
            assert(resplit_lines(ls) =~= seq![chop_cr(ls[0])] + resplit_lines(tail));
        }
    }
}

/// On lines already free of trailing whitespace, a split of the join only
/// drops a final empty line.
pub proof fn lemma_resplit_trimmed(ls: Seq<Seq<char>>)
    requires
        all_ws_trimmed(ls),
    ensures
        resplit_lines(ls) == drop_trailing_empty(ls),
{
    if ls.len() == 0 {
    } else {
        assert forall|i: int| 0 <= i < ls.drop_last().len() implies chop_all(ls.drop_last())[i]
            == ls[i] by {
            assert(ls.drop_last()[i] == ls[i]);
            assert(ws_trimmed(ls[i]));
        }
        if ls.last().len() == 0 {
            assert(resplit_lines(ls) =~= ls.drop_last());
        } else {
            assert(resplit_lines(ls) =~= ls);
        }
    }
}

/// The tail part of a join ends with `'\n'` when the last line is empty.
proof fn lemma_join_rest_last(ls: Seq<Seq<char>>)
    requires
        ls.len() >= 1,
        ls.last().len() == 0,
    ensures
        join_rest(ls).len() > 0,
        join_rest(ls).last() == '\n',
    decreases ls.len(),
{
    if ls.len() == 1 {
        assert(join_rest(ls) =~= seq!['\n']);
    } else {
        assert(ls.skip(1).last() == ls.last());
        lemma_join_rest_last(ls.skip(1));
        assert(join_rest(ls).last() == join_rest(ls.skip(1)).last());
    }
}

/// Collapsing emits every blank line as the empty line, and keeps lines
/// free of `'\n'`, of trailing whitespace and of tabs if the input lines
/// were.
pub proof fn lemma_collapse_elems(ls: Seq<Seq<char>>, pb: bool)
    ensures
        blanks_empty(collapse_lines(ls, pb)),
        all_no_nl(ls) ==> all_no_nl(collapse_lines(ls, pb)),
        all_ws_trimmed(ls) ==> all_ws_trimmed(collapse_lines(ls, pb)),
        all_no_tabs(ls) ==> all_no_tabs(collapse_lines(ls, pb)),
    decreases ls.len(),
{
    if ls.len() == 0 {
    } else {
        let tail = ls.skip(1);
        assert forall|i: int| 0 <= i < tail.len() implies #[trigger] tail[i] == ls[i + 1] by {}
        lemma_collapse_elems(tail, is_blank(ls[0]));
        let out = collapse_lines(ls, pb);
        let rest = collapse_lines(tail, is_blank(ls[0]));
        if is_blank(ls[0]) && pb {
        } else {
            assert forall|j: int| 1 <= j < out.len() implies #[trigger] out[j] == rest[j - 1] by {}
        }
    }
}

/// Collapsing never leaves two blank lines next to each other, and after a
/// blank line it never starts with another one.
pub proof fn lemma_collapse_no_adjacent(ls: Seq<Seq<char>>, pb: bool)
    ensures
        no_adjacent_blanks(collapse_lines(ls, pb)),
        pb ==> (collapse_lines(ls, pb).len() == 0 || !is_blank(collapse_lines(ls, pb)[0])),
    decreases ls.len(),
{
    if ls.len() == 0 {
    } else {
        let tail = ls.skip(1);
        lemma_collapse_no_adjacent(tail, is_blank(ls[0]));
        let out = collapse_lines(ls, pb);
        let rest = collapse_lines(tail, is_blank(ls[0]));
        if is_blank(ls[0]) && pb {
        } else {
            assert forall|j: int| 1 <= j < out.len() implies #[trigger] out[j] == rest[j - 1] by {}
            assert forall|i: int| 0 <= i && i + 1 < out.len() implies !(is_blank(#[trigger] out[i])
                && is_blank(out[i + 1])) by {
                if i == 0 {
                    if is_blank(ls[0]) {
                        assert(out[1] == rest[0]);
                    }
                } else {
                    assert(out[i] == rest[i - 1]);
                    assert(out[i + 1] == rest[i]);
                }
            }
        }
    }
}

/// On a line sequence already in collapsed shape — no two blank lines
/// adjacent, every blank line empty, and no blank first line after a blank
/// predecessor — collapsing changes nothing.
pub proof fn lemma_collapse_id(ls: Seq<Seq<char>>, pb: bool)
    requires
        no_adjacent_blanks(ls),
        blanks_empty(ls),
        pb ==> (ls.len() == 0 || !is_blank(ls[0])),
    ensures
        collapse_lines(ls, pb) == ls,
    decreases ls.len(),
{
    if ls.len() == 0 {
        assert(collapse_lines(ls, pb) =~= ls);
    } else {
        let tail = ls.skip(1);
        assert forall|i: int| 0 <= i < tail.len() implies #[trigger] tail[i] == ls[i + 1] by {}
        lemma_collapse_id(tail, is_blank(ls[0]));
        if is_blank(ls[0]) {
            assert(ls[0].len() == 0);
            assert(ls[0] =~= Seq::<char>::empty());
            assert(collapse_lines(ls, pb) =~= ls);
        } else {
            assert(collapse_lines(ls, pb) =~= ls);
        }
    }
}

/// On a text with no `"\r\n"`, line-ending normalization changes nothing.
pub proof fn lemma_crlf_id(s: Seq<char>)
    requires
        no_crlf(s),
    ensures
        replace_crlf(s) == s,
    decreases s.len(),
{
    if s.len() == 0 {
        assert(replace_crlf(s) =~= s);
    } else {
        assert forall|i: int|
            0 <= i && i + 1 < s.skip(1).len() implies !(#[trigger] s.skip(1)[i] == '\r'
            && s.skip(1)[i + 1] == '\n') by {
            assert(s.skip(1)[i] == s[i + 1]);
            assert(s.skip(1)[i + 1] == s[i + 2]);
        }
        lemma_crlf_id(s.skip(1));
        assert(replace_crlf(s) =~= s);
    }
}

/// Concatenation keeps a text free of `"\r\n"` when both parts are free of
/// it and none arises at the seam.
pub proof fn lemma_no_crlf_concat(a: Seq<char>, b: Seq<char>)
    requires
        no_crlf(a),
        no_crlf(b),
        a.len() > 0 && b.len() > 0 ==> !(a.last() == '\r' && b[0] == '\n'),
    ensures
        no_crlf(a + b),
{
    assert forall|i: int| 0 <= i && i + 1 < (a + b).len() implies !(#[trigger] (a + b)[i] == '\r' && (a
        + b)[i + 1] == '\n') by {
        if i + 1 < a.len() {
            assert((a + b)[i] == a[i]);
            assert((a + b)[i + 1] == a[i + 1]);
        } else if i + 1 == a.len() {
            assert((a + b)[i] == a.last());
            assert((a + b)[i + 1] == b[0]);
        } else {
            assert((a + b)[i] == b[i - a.len()]);
            assert((a + b)[i + 1] == b[i + 1 - a.len()]);
        }
    }
}

/// The join of `'\n'`-free, end-trimmed lines holds no `"\r\n"`.
pub proof fn lemma_join_no_crlf(ls: Seq<Seq<char>>)
    requires
        all_no_nl(ls),
        all_ws_trimmed(ls),
    ensures
        no_crlf(join_lines(ls)),
    decreases ls.len(),
{
    if ls.len() == 0 {
    } else if ls.len() == 1 {
        assert(join_lines(ls) =~= ls[0]);
        assert(no_nl(ls[0]));
    } else {
        lemma_join_unfold(ls);
        let tail = ls.skip(1);
        assert forall|i: int| 0 <= i < tail.len() implies #[trigger] tail[i] == ls[i + 1] by {}
        lemma_join_no_crlf(tail);
        let head = ls[0];
        assert(no_nl(head));
        assert(ws_trimmed(head));
        let b = seq!['\n'] + join_lines(tail);
        lemma_no_crlf_concat(seq!['\n'], join_lines(tail));
        assert(head.len() > 0 ==> head.last() != '\r') by {
            if head.len() > 0 {
                assert(!is_ws_char(head.last()));
            }
        }
        lemma_no_crlf_concat(head, b);
        assert(head + b =~= join_lines(ls));
    }
}

/// The join of tab-free lines holds no tab.
pub proof fn lemma_join_no_tabs(ls: Seq<Seq<char>>)
    requires
        all_no_tabs(ls),
    ensures
        no_tabs(join_lines(ls)),
    decreases ls.len(),
{
    if ls.len() == 0 {
    } else if ls.len() == 1 {
        assert(join_lines(ls) =~= ls[0]);
        assert(no_tabs(ls[0]));
    } else {
        lemma_join_unfold(ls);
        let tail = ls.skip(1);
        assert forall|i: int| 0 <= i < tail.len() implies #[trigger] tail[i] == ls[i + 1] by {}
        lemma_join_no_tabs(tail);
        let head = ls[0];
        assert(no_tabs(head));
        let joined = head + seq!['\n'] + join_lines(tail);
        assert forall|i: int| 0 <= i < joined.len() implies #[trigger] joined[i] != '\t' by {
            if i < head.len() {
                assert(joined[i] == head[i]);
            } else if i == head.len() {
                assert(joined[i] == '\n');
            } else {
                assert(joined[i] == join_lines(tail)[i - head.len() - 1]);
            }
        }
    }
}

/// Every line of a trailing-whitespace-removed text ends in no whitespace.
pub proof fn lemma_trailing_removed_trimmed(s: Seq<char>)
    ensures
        all_ws_trimmed(split_lines(trailing_removed(s))),
{
    let ls1 = split_lines(s);
    let m2 = ls1.map_values(|l: Seq<char>| trim_end_ws(l));
    lemma_split_elems(s);
    assert forall|i: int| 0 <= i < m2.len() implies no_nl(#[trigger] m2[i]) && ws_trimmed(
        m2[i],
    ) by {
        assert(m2[i] == trim_end_ws(ls1[i]));
        assert(no_nl(ls1[i]));
        lemma_trim_props(ls1[i]);
    }
    lemma_split_join(m2);
    lemma_resplit_trimmed(m2);
    let out = split_lines(trailing_removed(s));
    assert forall|i: int| 0 <= i < out.len() implies ws_trimmed(#[trigger] out[i]) by {
        assert(out[i] == drop_trailing_empty(m2)[i]);
        assert(drop_trailing_empty(m2)[i] == m2[i]);
        assert(ws_trimmed(m2[i]));
    }
}

/// Chopping a trailing `'\r'` can empty only a blank line.
proof fn lemma_chop_empty_blank(l: Seq<char>)
    requires
        chop_cr(l).len() == 0,
    ensures
        is_blank(l),
{
    if l.len() > 0 && l.last() == '\r' {
        assert(l.len() == 1);
        assert forall|i: int| 0 <= i < l.len() implies is_ws_char(#[trigger] l[i]) by {
            assert(l[i] == l.last());
        }
    }
}

/// No two consecutive lines of a blank-collapsed text are empty.
pub proof fn lemma_blanks_collapsed_no_empties(s: Seq<char>)
    ensures
        no_adjacent_empties(split_lines(blanks_collapsed(s))),
{
    let ls = split_lines(s);
    lemma_split_elems(s);
    let ls4 = collapse_lines(ls, false);
    lemma_collapse_elems(ls, false);
    lemma_collapse_no_adjacent(ls, false);
    lemma_split_join(ls4);
    let out = split_lines(blanks_collapsed(s));
    assert forall|i: int|
        0 <= i && i + 1 < out.len() implies !((#[trigger] out[i]).len() == 0 && out[i + 1].len()
        == 0) by {
        if out[i].len() == 0 && out[i + 1].len() == 0 {
            let n = ls4.len() as int;
            if ls4.last().len() == 0 {
                assert(out[i] == chop_cr(ls4.drop_last()[i]));
                assert(out[i + 1] == chop_cr(ls4.drop_last()[i + 1]));
                assert(ls4.drop_last()[i] == ls4[i]);
                assert(ls4.drop_last()[i + 1] == ls4[i + 1]);
                lemma_chop_empty_blank(ls4[i]);
                lemma_chop_empty_blank(ls4[i + 1]);
            } else {
                assert(out.len() == n);
                assert(out[i] == chop_cr(ls4.drop_last()[i]));
                assert(ls4.drop_last()[i] == ls4[i]);
                lemma_chop_empty_blank(ls4[i]);
                if i + 1 < n - 1 {
                    assert(out[i + 1] == chop_cr(ls4.drop_last()[i + 1]));
                    assert(ls4.drop_last()[i + 1] == ls4[i + 1]);
                    lemma_chop_empty_blank(ls4[i + 1]);
                } else {
                    assert(out[i + 1] == ls4.last());
                    assert(is_blank(ls4[i + 1]));
                }
            }
            assert(is_blank(ls4[i]) && is_blank(ls4[i + 1]));
            assert(false);
        }
    }
}

/// In a join that holds no `"\r\n"`, no line other than the last — none
/// that a `'\n'` follows — ends with `'\r'`.
pub proof fn lemma_join_no_crlf_lines(ls: Seq<Seq<char>>)
    requires
        all_no_nl(ls),
        no_crlf(join_lines(ls)),
    ensures
        forall|i: int|
            0 <= i < ls.len() - 1 ==> ((#[trigger] ls[i]).len() == 0 || ls[i].last() != '\r'),
    decreases ls.len(),
{
    if ls.len() <= 1 {
    } else {
        lemma_join_unfold(ls);
        let j = join_lines(ls);
        let head = ls[0];
        let rest = join_lines(ls.skip(1));
        assert(j =~= head + seq!['\n'] + rest);
        if head.len() > 0 && head.last() == '\r' {
            assert(j[head.len() - 1] == '\r');
            assert(j[head.len() as int] == '\n');
            assert(false);
        }
        assert forall|i: int|
            0 <= i && i + 1 < rest.len() implies !(#[trigger] rest[i] == '\r' && rest[i + 1]
            == '\n') by {
            let off = head.len() as int + 1;
            assert(j[off + i] == rest[i]);
            assert(j[off + i + 1] == rest[i + 1]);
        }
        assert forall|i: int| 0 <= i < ls.skip(1).len() implies no_nl(#[trigger] ls.skip(1)[i]) by {
            assert(ls.skip(1)[i] == ls[i + 1]);
        }
        lemma_join_no_crlf_lines(ls.skip(1));
        assert forall|i: int|
            0 <= i < ls.len() - 1 implies ((#[trigger] ls[i]).len() == 0 || ls[i].last()
            != '\r') by {
            if i > 0 {
                assert(ls[i] == ls.skip(1)[i - 1]);
            }
        }
    }
}

/// A join of two or more lines whose last line is empty ends with `'\n'`.
pub proof fn lemma_join_last_nl(ls: Seq<Seq<char>>)
    requires
        ls.len() >= 2,
        ls.last().len() == 0,
    ensures
        join_lines(ls).len() > 0,
        join_lines(ls).last() == '\n',
{
    assert(ls.skip(1).last() == ls.last());
    lemma_join_rest_last(ls.skip(1));
    assert(join_lines(ls).last() == join_rest(ls.skip(1)).last());
}

} // verus!
