//! Laws of the transforms and pipelines: idempotence of each transform and
//! of the `Everything` pipeline, and what a full run of line-ending
//! normalization leaves behind, proved once over the model.

use vstd::prelude::*;

verus! {

use crate::lemmas::lemma_collapse_elems;
use crate::lemmas::lemma_collapse_id;
use crate::lemmas::lemma_collapse_no_adjacent;
use crate::lemmas::lemma_crlf_id;
use crate::lemmas::lemma_expand_tabs_id;
use crate::lemmas::lemma_expand_tabs_props;
use crate::lemmas::lemma_fix_line_idempotent;
use crate::lemmas::lemma_join_last_nl;
use crate::lemmas::lemma_join_no_crlf;
use crate::lemmas::lemma_join_no_crlf_lines;
use crate::lemmas::lemma_join_no_tabs;
use crate::lemmas::lemma_resplit_trimmed;
use crate::lemmas::lemma_split_elems;
use crate::lemmas::lemma_split_join;
use crate::lemmas::lemma_trim_id;
use crate::lemmas::lemma_trim_props;
use crate::model::all_cleaned;
use crate::model::all_no_nl;
use crate::model::all_no_tabs;
use crate::model::all_ws_trimmed;
use crate::model::backslash_fixed;
use crate::model::blanks_collapsed;
use crate::model::blanks_empty;
use crate::model::chop_all;
use crate::model::collapse_lines;
use crate::model::drop_trailing_empty;
use crate::model::expand_tabs;
use crate::model::fix_line;
use crate::model::join_lines;
use crate::model::no_adjacent_blanks;
use crate::model::no_crcrlf;
use crate::model::no_crlf;
use crate::model::no_nl;
use crate::model::no_tabs;
use crate::model::replace_crlf;
use crate::model::split_lines;
use crate::model::trailing_removed;
use crate::model::trim_end_ws;
use crate::model::ws_trimmed;

/// The lines of an `Everything`-cleaned text, before the final join.
spec fn cleaned_lines(s: Seq<char>) -> Seq<Seq<char>> {
    collapse_lines(split_lines(backslash_fixed(trailing_removed(expand_tabs(s)))), false)
}

/// The empty text is a fixed point of the `Everything` pipeline.
proof fn lemma_all_cleaned_empty()
    ensures
        all_cleaned(Seq::<char>::empty()) == Seq::<char>::empty(),
{
    let e = Seq::<char>::empty();
    let none = Seq::<Seq<char>>::empty();
    assert(split_lines(e) =~= none);
    assert(none.map_values(|l: Seq<char>| trim_end_ws(l)) =~= none);
    assert(none.map_values(|l: Seq<char>| fix_line(l)) =~= none);
    assert(trailing_removed(e) == e);
    assert(backslash_fixed(e) == e);
    assert(blanks_collapsed(e) == e);
}

/// What one run of the `Everything` pipeline produces: the join of its
/// collapsed lines, each free of `'\n'`, of trailing whitespace and of
/// tabs, with every blank line empty and no two blank lines adjacent.
proof fn lemma_all_cleaned_shape(s: Seq<char>)
    ensures
        all_cleaned(s) == join_lines(cleaned_lines(s)),
        all_no_nl(cleaned_lines(s)),
        all_ws_trimmed(cleaned_lines(s)),
        all_no_tabs(cleaned_lines(s)),
        blanks_empty(cleaned_lines(s)),
        no_adjacent_blanks(cleaned_lines(s)),
{
    let t1 = expand_tabs(s);
    lemma_expand_tabs_props(s);
    let ls1 = split_lines(t1);
    lemma_split_elems(t1);
    let m2 = ls1.map_values(|l: Seq<char>| trim_end_ws(l));
    assert forall|i: int|
        0 <= i < m2.len() implies no_nl(#[trigger] m2[i]) && ws_trimmed(m2[i]) && no_tabs(
        m2[i],
    ) by {
        assert(m2[i] == trim_end_ws(ls1[i]));
        assert(no_nl(ls1[i]) && no_tabs(ls1[i]));
        lemma_trim_props(ls1[i]);
    }
    let t2 = trailing_removed(t1);
    lemma_split_join(m2);
    lemma_resplit_trimmed(m2);
    let d2 = drop_trailing_empty(m2);
    assert forall|i: int|
        0 <= i < d2.len() implies no_nl(#[trigger] d2[i]) && ws_trimmed(d2[i]) && no_tabs(
        d2[i],
    ) by {
        assert(d2[i] == m2[i]);
    }
    let ls2 = split_lines(t2);
    assert(ls2 == d2);
    let m3 = ls2.map_values(|l: Seq<char>| fix_line(l));
    assert forall|i: int| 0 <= i < m3.len() implies #[trigger] m3[i] == ls2[i] by {
        assert(m3[i] == fix_line(ls2[i]));
        lemma_trim_id(ls2[i]);
    }
    assert(m3 =~= ls2);
    let t3 = backslash_fixed(t2);
    assert(t3 == join_lines(ls2));
    lemma_split_join(ls2);
    lemma_resplit_trimmed(ls2);
    let d3 = drop_trailing_empty(ls2);
    assert forall|i: int|
        0 <= i < d3.len() implies no_nl(#[trigger] d3[i]) && ws_trimmed(d3[i]) && no_tabs(
        d3[i],
    ) by {
        assert(d3[i] == ls2[i]);
    }
    let ls3 = split_lines(t3);
    assert(ls3 == d3);
    let ls4 = collapse_lines(ls3, false);
    assert(cleaned_lines(s) == ls4);
    lemma_collapse_elems(ls3, false);
    lemma_collapse_no_adjacent(ls3, false);
    let t4 = blanks_collapsed(t3);
    assert(t4 == join_lines(ls4));
    lemma_join_no_crlf(ls4);
    lemma_crlf_id(t4);
}

/// A text whose lines are already in cleaned shape, with no final empty
/// line, is a fixed point of the `Everything` pipeline.
proof fn lemma_cleaned_fixed(ls: Seq<Seq<char>>)
    requires
        all_no_nl(ls),
        all_ws_trimmed(ls),
        all_no_tabs(ls),
        blanks_empty(ls),
        no_adjacent_blanks(ls),
        ls.len() > 0 ==> ls.last().len() > 0,
    ensures
        all_cleaned(join_lines(ls)) == join_lines(ls),
{
    let r = join_lines(ls);
    lemma_join_no_tabs(ls);
    lemma_expand_tabs_id(r);
    lemma_split_join(ls);
    lemma_resplit_trimmed(ls);
    assert(drop_trailing_empty(ls) == ls);
    assert(split_lines(r) == ls);
    let mt = split_lines(r).map_values(|l: Seq<char>| trim_end_ws(l));
    assert forall|i: int| 0 <= i < mt.len() implies #[trigger] mt[i] == ls[i] by {
        assert(mt[i] == trim_end_ws(ls[i]));
        lemma_trim_id(ls[i]);
    }
    assert(mt =~= ls);
    assert(trailing_removed(r) == r);
    let mf = split_lines(r).map_values(|l: Seq<char>| fix_line(l));
    assert forall|i: int| 0 <= i < mf.len() implies #[trigger] mf[i] == ls[i] by {
        assert(mf[i] == fix_line(ls[i]));
        lemma_trim_id(ls[i]);
    }
    assert(mf =~= ls);
    assert(backslash_fixed(r) == r);
    lemma_collapse_id(ls, false);
    assert(blanks_collapsed(r) == r);
    lemma_join_no_crlf(ls);
    lemma_crlf_id(r);
    assert(all_cleaned(r) == r);
}

/// Idempotence of the `Everything` pipeline: cleaning a second time
/// changes nothing, whenever the first cleaning does not end with a
/// newline.  (A cleaned text can end with one exactly when its last line
/// is a lone collapsed blank, as for the input `"a\n\n\n\n"`, whose
/// cleaned form `"a\n"` loses that final newline on a second pass.)
pub proof fn lemma_clean_all_idempotent(s: Seq<char>)
    requires
        all_cleaned(s).len() == 0 || all_cleaned(s).last() != '\n',
    ensures
        all_cleaned(all_cleaned(s)) == all_cleaned(s),
{
    lemma_all_cleaned_shape(s);
    let ls = cleaned_lines(s);
    let r = all_cleaned(s);
    if r.len() == 0 {
        assert(r =~= Seq::<char>::empty());
        lemma_all_cleaned_empty();
    } else {
        assert(ls.len() > 0);
        if ls.last().len() == 0 {
            if ls.len() == 1 {
                assert(r =~= ls[0]);
                assert(false);
            } else {
                lemma_join_last_nl(ls);
                assert(false);
            }
        }
        lemma_cleaned_fixed(ls);
    }
}

/// Tab expansion is idempotent: its result holds no tab, so a second pass
/// changes nothing, for every input.
pub proof fn lemma_tabs_to_spaces_idempotent(s: Seq<char>)
    ensures
        expand_tabs(expand_tabs(s)) == expand_tabs(s),
{
    lemma_expand_tabs_props(s);
    lemma_expand_tabs_id(expand_tabs(s));
}

/// Trailing-whitespace removal is idempotent whenever its result does not
/// end with a newline.  (For `"a\n\n"` the result is `"a\n"` — the blank
/// second line survives trimming, but re-splitting drops it as the segment
/// after a final `'\n'`, so a second pass gives `"a"`.)
pub proof fn lemma_remove_trailing_idempotent(s: Seq<char>)
    requires
        trailing_removed(s).len() == 0 || trailing_removed(s).last() != '\n',
    ensures
        trailing_removed(trailing_removed(s)) == trailing_removed(s),
{
    let ls1 = split_lines(s);
    lemma_split_elems(s);
    let m = ls1.map_values(|l: Seq<char>| trim_end_ws(l));
    assert forall|i: int|
        0 <= i < m.len() implies no_nl(#[trigger] m[i]) && ws_trimmed(m[i]) by {
        assert(m[i] == trim_end_ws(ls1[i]));
        assert(no_nl(ls1[i]));
        lemma_trim_props(ls1[i]);
    }
    let r = trailing_removed(s);
    if r.len() == 0 {
        assert(r =~= Seq::<char>::empty());
        let none = Seq::<Seq<char>>::empty();
        assert(split_lines(Seq::<char>::empty()) =~= none);
        assert(none.map_values(|l: Seq<char>| trim_end_ws(l)) =~= none);
        assert(trailing_removed(Seq::<char>::empty()) == Seq::<char>::empty());
    } else {
        assert(m.len() > 0);
        if m.last().len() == 0 {
            if m.len() == 1 {
                assert(r =~= m[0]);
                assert(false);
            } else {
                lemma_join_last_nl(m);
                assert(false);
            }
        }
        lemma_split_join(m);
        lemma_resplit_trimmed(m);
        assert(drop_trailing_empty(m) == m);
        assert(split_lines(r) == m);
        let mt = split_lines(r).map_values(|l: Seq<char>| trim_end_ws(l));
        assert forall|i: int| 0 <= i < mt.len() implies #[trigger] mt[i] == m[i] by {
            assert(mt[i] == trim_end_ws(m[i]));
            lemma_trim_id(m[i]);
        }
        assert(mt =~= m);
        assert(trailing_removed(r) == r);
    }
}

/// Blank-line collapsing is idempotent whenever its result holds no
/// `"\r\n"` and does not end with a newline.  (For `"a\n\n"` the result is
/// `"a\n"`, and a second pass gives `"a"`; for `"a\r\r\nb"` the result
/// keeps the line `"a\r"`, whose `'\r'` the second pass's splitting
/// removes together with the `'\n'` after it.)
pub proof fn lemma_normalize_blank_lines_idempotent(s: Seq<char>)
    requires
        no_crlf(blanks_collapsed(s)),
        blanks_collapsed(s).len() == 0 || blanks_collapsed(s).last() != '\n',
    ensures
        blanks_collapsed(blanks_collapsed(s)) == blanks_collapsed(s),
{
    let ls = split_lines(s);
    lemma_split_elems(s);
    let c = collapse_lines(ls, false);
    lemma_collapse_elems(ls, false);
    lemma_collapse_no_adjacent(ls, false);
    let r = blanks_collapsed(s);
    if r.len() == 0 {
        assert(r =~= Seq::<char>::empty());
        let none = Seq::<Seq<char>>::empty();
        assert(split_lines(Seq::<char>::empty()) =~= none);
        assert(blanks_collapsed(Seq::<char>::empty()) == Seq::<char>::empty());
    } else {
        assert(c.len() > 0);
        if c.last().len() == 0 {
            if c.len() == 1 {
                assert(r =~= c[0]);
                assert(false);
            } else {
                lemma_join_last_nl(c);
                assert(false);
            }
        }
        lemma_split_join(c);
        lemma_join_no_crlf_lines(c);
        assert forall|i: int|
            0 <= i < c.drop_last().len() implies chop_all(c.drop_last())[i] == c[i] by {
            assert(c.drop_last()[i] == c[i]);
            assert(c[i].len() == 0 || c[i].last() != '\r');
        }
        assert(chop_all(c.drop_last()).push(c.last()) =~= c);
        assert(split_lines(r) == c);
        lemma_collapse_id(c, false);
        assert(blanks_collapsed(r) == r);
    }
}

/// Backslash cleanup is idempotent whenever its result holds no `"\r\n"`
/// and does not end with a newline.  (Cleanup of a single line always is;
/// the exceptions come from re-splitting, exactly as for blank-line
/// collapsing: a final `'\n'` or a kept `"\r\n"` is consumed on the second
/// pass.)
pub proof fn lemma_fix_backslash_idempotent(s: Seq<char>)
    requires
        no_crlf(backslash_fixed(s)),
        backslash_fixed(s).len() == 0 || backslash_fixed(s).last() != '\n',
    ensures
        backslash_fixed(backslash_fixed(s)) == backslash_fixed(s),
{
    let ls = split_lines(s);
    lemma_split_elems(s);
    let m = ls.map_values(|l: Seq<char>| fix_line(l));
    assert forall|i: int| 0 <= i < m.len() implies no_nl(#[trigger] m[i]) by {
        assert(m[i] == fix_line(ls[i]));
        assert(no_nl(ls[i]));
        lemma_trim_props(ls[i]);
    }
    let r = backslash_fixed(s);
    if r.len() == 0 {
        assert(r =~= Seq::<char>::empty());
        let none = Seq::<Seq<char>>::empty();
        assert(split_lines(Seq::<char>::empty()) =~= none);
        assert(none.map_values(|l: Seq<char>| fix_line(l)) =~= none);
        assert(backslash_fixed(Seq::<char>::empty()) == Seq::<char>::empty());
    } else {
        assert(m.len() > 0);
        if m.last().len() == 0 {
            if m.len() == 1 {
                assert(r =~= m[0]);
                assert(false);
            } else {
                lemma_join_last_nl(m);
                assert(false);
            }
        }
        lemma_split_join(m);
        lemma_join_no_crlf_lines(m);
        assert forall|i: int|
            0 <= i < m.drop_last().len() implies chop_all(m.drop_last())[i] == m[i] by {
            assert(m.drop_last()[i] == m[i]);
            assert(m[i].len() == 0 || m[i].last() != '\r');
        }
        assert(chop_all(m.drop_last()).push(m.last()) =~= m);
        assert(split_lines(r) == m);
        let mf = split_lines(r).map_values(|l: Seq<char>| fix_line(l));
        assert forall|i: int| 0 <= i < mf.len() implies #[trigger] mf[i] == m[i] by {
            assert(mf[i] == fix_line(m[i]));
            assert(m[i] == fix_line(ls[i]));
            lemma_fix_line_idempotent(ls[i]);
        }
        assert(mf =~= m);
        assert(backslash_fixed(r) == r);
    }
}

/// Line-ending normalization is idempotent whenever the input holds no
/// `"\r\r\n"`: one pass then leaves no `"\r\n"` for a second to find.
pub proof fn lemma_line_endings_idempotent(s: Seq<char>)
    requires
        no_crcrlf(s),
    ensures
        replace_crlf(replace_crlf(s)) == replace_crlf(s),
{
    lemma_line_endings_no_crlf(s);
    lemma_crlf_id(replace_crlf(s));
}

/// Line-ending normalization leaves no `"\r\n"` behind, provided the
/// input holds no `"\r\r\n"`.  (In `"\r\r\n"` itself, the replaced pair's
/// `'\n'` comes to stand right after the untouched lone `'\r'`.)
pub proof fn lemma_line_endings_no_crlf(s: Seq<char>)
    requires
        no_crcrlf(s),
    ensures
        no_crlf(replace_crlf(s)),
    decreases s.len(),
{
    if s.len() == 0 {
    } else if s.len() >= 2 && s[0] == '\r' && s[1] == '\n' {
        let tail = s.skip(2);
        assert forall|i: int|
            0 <= i && i + 2 < tail.len() implies !(#[trigger] tail[i] == '\r' && tail[i + 1] == '\r'
            && tail[i + 2] == '\n') by {
            assert(tail[i] == s[i + 2]);
            assert(tail[i + 1] == s[i + 3]);
            assert(tail[i + 2] == s[i + 4]);
        }
        lemma_line_endings_no_crlf(tail);
        let out = replace_crlf(s);
        let rest = replace_crlf(tail);
        assert forall|i: int|
            0 <= i && i + 1 < out.len() implies !(#[trigger] out[i] == '\r' && out[i + 1]
            == '\n') by {
            if i == 0 {
                assert(out[0] == '\n');
            } else {
                assert(out[i] == rest[i - 1]);
                assert(out[i + 1] == rest[i]);
            }
        }
    } else {
        let tail = s.skip(1);
        assert forall|i: int|
            0 <= i && i + 2 < tail.len() implies !(#[trigger] tail[i] == '\r' && tail[i + 1] == '\r'
            && tail[i + 2] == '\n') by {
            assert(tail[i] == s[i + 1]);
            assert(tail[i + 1] == s[i + 2]);
            assert(tail[i + 2] == s[i + 3]);
        }
        lemma_line_endings_no_crlf(tail);
        let out = replace_crlf(s);
        let rest = replace_crlf(tail);
        if s[0] == '\r' && rest.len() > 0 {
            if tail.len() >= 2 && tail[0] == '\r' && tail[1] == '\n' {
                assert(s[0] == '\r' && s[1] == '\r' && s[2] == '\n');
                assert(false);
            } else {
                if tail.len() > 0 {
                    assert(rest[0] == tail[0]);
                    assert(tail[0] == s[1]);
                    assert(tail[0] != '\n');
                }
            }
        }
        assert forall|i: int|
            0 <= i && i + 1 < out.len() implies !(#[trigger] out[i] == '\r' && out[i + 1]
            == '\n') by {
            if i == 0 {
                assert(out[0] == s[0]);
                assert(out[1] == rest[0]);
            } else {
                assert(out[i] == rest[i - 1]);
                assert(out[i + 1] == rest[i]);
            }
        }
    }
}

} // verus!
