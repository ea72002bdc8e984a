//! Whitespace and line-ending normalization for source text.
//!
//! Five small transforms — tab expansion, trailing-whitespace removal,
//! backslash-continuation cleanup, blank-line collapsing and line-ending
//! normalization — and four named pipelines that compose them.  Every
//! transform is a pure, total function from text to text; its result is
//! stated exactly, over the sequence-of-characters model in [`model`].

use vstd::prelude::*;

pub mod model;

verus! {

use crate::model::all_cleaned;
use crate::model::all_ws_trimmed;
use crate::model::backslash_fixed;
use crate::model::blanks_collapsed;
use crate::model::collapse_lines;
use crate::model::expand_tabs;
use crate::model::fix_line;
use crate::model::git_cleaned;
use crate::model::line_views;
use crate::model::no_adjacent_empties;
use crate::model::no_tabs;
use crate::model::replace_crlf;
use crate::model::split_lines;
use crate::model::syntax_cleaned;
use crate::model::tab_count;
use crate::model::trailing_removed;
use crate::model::trim_end_ws;

/// Tab expansion: every horizontal tab in the input becomes four spaces.
/// No tab survives, and the text grows by three characters per tab.
pub fn tabs_to_spaces(input: &str) -> (r: String)
    ensures
        r@ == expand_tabs(input@),
        no_tabs(r@),
        r@.len() == input@.len() + 3 * tab_count(input@),
{
    proof {
        crate::lemmas::lemma_expand_tabs_props(input@);
    }
    let v = crate::conv::str_to_chars(input);
    let mut out: Vec<char> = Vec::new();
    let mut i: usize = 0;
    proof {
        assert(v@.skip(0) =~= v@);
        assert(Seq::<char>::empty() + expand_tabs(v@) =~= expand_tabs(v@));
    }
    while i < v.len()
        invariant
            i <= v.len(),
            expand_tabs(v@) == out@ + expand_tabs(v@.skip(i as int)),
        decreases v.len() - i,
    {
        proof {
            assert(v@.skip(i as int)[0] == v@[i as int]);
            assert(v@.skip(i as int).skip(1) =~= v@.skip(i as int + 1));
        }
        let c = v[i];
        if c == '\t' {
            out.push(' ');
            out.push(' ');
            out.push(' ');
            out.push(' ');
        } else {
            out.push(c);
        }
        i = i + 1;
    }
    proof {
        assert(v@.skip(v@.len() as int) =~= Seq::<char>::empty());
        assert(out@ + Seq::<char>::empty() =~= out@);
    }
    crate::conv::chars_to_string(out)
}

/// Trailing-whitespace removal: the input is split into lines at each
/// `'\n'`, every line loses all whitespace at its end, and the lines are
/// joined back with `'\n'`.  No line of the result ends in a whitespace
/// character.
pub fn remove_trailing_spaces(input: &str) -> (r: String)
    ensures
        r@ == trailing_removed(input@),
        all_ws_trimmed(split_lines(r@)),
{
    proof {
        crate::lemmas::lemma_trailing_removed_trimmed(input@);
    }
    let v = crate::conv::str_to_chars(input);
    let ls = crate::lines::split_to_lines(&v);
    let ghost mapped = split_lines(v@).map_values(|l: Seq<char>| trim_end_ws(l));
    let mut out: Vec<Vec<char>> = Vec::new();
    let mut i: usize = 0;
    proof {
        assert(line_views(out@) =~= mapped.take(0));
    }
    while i < ls.len()
        invariant
            i <= ls@.len(),
            line_views(ls@) == split_lines(v@),
            mapped == split_lines(v@).map_values(|l: Seq<char>| trim_end_ws(l)),
            line_views(out@) == mapped.take(i as int),
        decreases ls@.len() - i,
    {
        let ghost old_out = out@;
        let t = crate::lines::trim_line(&ls[i]);
        out.push(t);
        proof {
            assert(line_views(ls@)[i as int] == ls@[i as int]@);
            assert(mapped[i as int] == trim_end_ws(ls@[i as int]@));
            assert(line_views(out@) =~= line_views(old_out).push(trim_end_ws(ls@[i as int]@)));
            assert(mapped.take(i as int).push(mapped[i as int]) =~= mapped.take(i as int + 1));
        }
        i = i + 1;
    }
    proof {
        assert(mapped.take(mapped.len() as int) =~= mapped);
    }
    let joined = crate::lines::join_to_text(&out);
    crate::conv::chars_to_string(joined)
}

/// Backslash-continuation cleanup: a line whose whitespace-stripped form
/// ends with a backslash is replaced by that stripped form; every other
/// line is kept exactly as it was.
pub fn fix_backslash_space(input: &str) -> (r: String)
    ensures
        r@ == backslash_fixed(input@),
{
    let v = crate::conv::str_to_chars(input);
    let ls = crate::lines::split_to_lines(&v);
    let ghost mapped = split_lines(v@).map_values(|l: Seq<char>| fix_line(l));
    let mut out: Vec<Vec<char>> = Vec::new();
    let mut i: usize = 0;
    proof {
        assert(line_views(out@) =~= mapped.take(0));
    }
    while i < ls.len()
        invariant
            i <= ls@.len(),
            line_views(ls@) == split_lines(v@),
            mapped == split_lines(v@).map_values(|l: Seq<char>| fix_line(l)),
            line_views(out@) == mapped.take(i as int),
        decreases ls@.len() - i,
    {
        let ghost old_out = out@;
        let t = crate::lines::trim_line(&ls[i]);
        let kept = if t.len() > 0 && t[t.len() - 1] == '\\' {
            t
        } else {
            crate::lines::copy_line(&ls[i])
        };
        out.push(kept);
        proof {
            assert(line_views(ls@)[i as int] == ls@[i as int]@);
            assert(mapped[i as int] == fix_line(ls@[i as int]@));
            assert(line_views(out@) =~= line_views(old_out).push(fix_line(ls@[i as int]@)));
            assert(mapped.take(i as int).push(mapped[i as int]) =~= mapped.take(i as int + 1));
        }
        i = i + 1;
    }
    proof {
        assert(mapped.take(mapped.len() as int) =~= mapped);
    }
    let joined = crate::lines::join_to_text(&out);
    crate::conv::chars_to_string(joined)
}

/// Blank-line collapsing: every run of consecutive blank lines becomes a
/// single empty line; non-blank lines are kept unchanged.  The result
/// never holds two consecutive empty lines.
pub fn normalize_blank_lines(input: &str) -> (r: String)
    ensures
        r@ == blanks_collapsed(input@),
        no_adjacent_empties(split_lines(r@)),
{
    proof {
        crate::lemmas::lemma_blanks_collapsed_no_empties(input@);
    }
    let v = crate::conv::str_to_chars(input);
    let ls = crate::lines::split_to_lines(&v);
    let mut out: Vec<Vec<char>> = Vec::new();
    let mut last_blank = false;
    let mut i: usize = 0;
    proof {
        assert(line_views(ls@).skip(0) =~= line_views(ls@));
        assert(line_views(out@) + collapse_lines(line_views(ls@), false) =~= collapse_lines(
            split_lines(v@),
            false,
        ));
    }
    while i < ls.len()
        invariant
            i <= ls@.len(),
            line_views(ls@) == split_lines(v@),
            collapse_lines(split_lines(v@), false) == line_views(out@) + collapse_lines(
                line_views(ls@).skip(i as int),
                last_blank,
            ),
        decreases ls@.len() - i,
    {
        proof {
            let lv = line_views(ls@);
            assert(lv.skip(i as int)[0] == lv[i as int]);
            assert(lv[i as int] == ls@[i as int]@);
            assert(lv.skip(i as int).skip(1) =~= lv.skip(i as int + 1));
        }
        let blank = crate::lines::line_is_blank(&ls[i]);
        let ghost old_out = out@;
        if blank {
            if !last_blank {
                out.push(Vec::new());
                proof {
                    assert(line_views(out@) =~= line_views(old_out).push(Seq::<char>::empty()));
                    assert(line_views(old_out) + (seq![Seq::<char>::empty()] + collapse_lines(
                        line_views(ls@).skip(i as int + 1),
                        true,
                    )) =~= line_views(out@) + collapse_lines(
                        line_views(ls@).skip(i as int + 1),
                        true,
                    ));
                }
            }
        } else {
            let kept = crate::lines::copy_line(&ls[i]);
            out.push(kept);
            proof {
                assert(line_views(out@) =~= line_views(old_out).push(ls@[i as int]@));
                assert(line_views(old_out) + (seq![ls@[i as int]@] + collapse_lines(
                    line_views(ls@).skip(i as int + 1),
                    false,
                )) =~= line_views(out@) + collapse_lines(
                    line_views(ls@).skip(i as int + 1),
                    false,
                ));
            }
        }
        last_blank = blank;
        i = i + 1;
    }
    proof {
        assert(line_views(ls@).skip(ls@.len() as int) =~= Seq::<Seq<char>>::empty());
        assert(line_views(out@) + Seq::<Seq<char>>::empty() =~= line_views(out@));
    }
    let joined = crate::lines::join_to_text(&out);
    crate::conv::chars_to_string(joined)
}

/// Line-ending normalization: each `"\r\n"`, found scanning left to right,
/// becomes a single `'\n'`; a `'\r'` not followed by `'\n'` is untouched.
pub fn normalize_line_endings(input: &str) -> (r: String)
    ensures
        r@ == replace_crlf(input@),
{
    let v = crate::conv::str_to_chars(input);
    let mut out: Vec<char> = Vec::new();
    let mut i: usize = 0;
    proof {
        assert(v@.skip(0) =~= v@);
        assert(Seq::<char>::empty() + replace_crlf(v@) =~= replace_crlf(v@));
    }
    while i < v.len()
        invariant
            i <= v@.len(),
            replace_crlf(v@) == out@ + replace_crlf(v@.skip(i as int)),
        decreases v@.len() - i,
    {
        proof {
            assert(v@.skip(i as int)[0] == v@[i as int]);
            if i + 1 < v@.len() {
                assert(v@.skip(i as int)[1] == v@[i as int + 1]);
                assert(v@.skip(i as int).skip(2) =~= v@.skip(i as int + 2));
            }
            assert(v@.skip(i as int).skip(1) =~= v@.skip(i as int + 1));
        }
        let c = v[i];
        if c == '\r' && i + 1 < v.len() && v[i + 1] == '\n' {
            out.push('\n');
            i = i + 2;
        } else {
            out.push(c);
            i = i + 1;
        }
    }
    proof {
        assert(v@.skip(v@.len() as int) =~= Seq::<char>::empty());
        assert(out@ + Seq::<char>::empty() =~= out@);
    }
    crate::conv::chars_to_string(out)
}

/// The `Everything` pipeline: tab expansion, trailing-whitespace removal,
/// backslash cleanup, blank-line collapsing, then line-ending
/// normalization.
pub fn clean_all(input: &str) -> (r: String)
    ensures
        r@ == all_cleaned(input@),
{
    let step1 = tabs_to_spaces(input);
    let step2 = remove_trailing_spaces(step1.as_str());
    let step3 = fix_backslash_space(step2.as_str());
    let step4 = normalize_blank_lines(step3.as_str());
    normalize_line_endings(step4.as_str())
}

/// The `Syntax-only` pipeline: tab expansion, backslash cleanup, then
/// line-ending normalization.
pub fn clean_syntax(input: &str) -> (r: String)
    ensures
        r@ == syntax_cleaned(input@),
{
    let step1 = tabs_to_spaces(input);
    let step2 = fix_backslash_space(step1.as_str());
    normalize_line_endings(step2.as_str())
}

/// The `Git-friendly` pipeline: trailing-whitespace removal, then
/// blank-line collapsing.
pub fn clean_git(input: &str) -> (r: String)
    ensures
        r@ == git_cleaned(input@),
{
    let step1 = remove_trailing_spaces(input);
    normalize_blank_lines(step1.as_str())
}

/// The `Size-reduction` pipeline, identical to the `Git-friendly` one:
/// trailing-whitespace removal, then blank-line collapsing.
pub fn clean_size(input: &str) -> (r: String)
    ensures
        r@ == git_cleaned(input@),
{
    let step1 = remove_trailing_spaces(input);
    normalize_blank_lines(step1.as_str())
}

} // verus!

mod conv;
pub mod laws;
mod lemmas;
mod lines;
