//! Executable line machinery: splitting a text into lines, joining lines
//! back with `'\n'`, trimming trailing whitespace, and testing blankness.
//! Each function returns exactly the value of its counterpart in [`crate::model`].

use vstd::prelude::*;

verus! {

use crate::model::chop_cr;
use crate::model::find_nl;
use crate::model::is_blank;
use crate::model::is_ws_char;
use crate::model::join_lines;
use crate::model::join_rest;
use crate::model::lemma_find_nl_is;
use crate::model::line_views;
use crate::model::split_lines;
use crate::model::trim_end_ws;

/// Whether `c` has the Unicode `White_Space` property.
pub(crate) fn is_ws(c: char) -> (b: bool)
    ensures
        b == is_ws_char(c),
{
    let u = c as u32;
    u == 0x09 || u == 0x0A || u == 0x0B || u == 0x0C || u == 0x0D || u == 0x20 || u == 0x85
        || u == 0xA0 || u == 0x1680 || (0x2000 <= u && u <= 0x200A) || u == 0x2028 || u == 0x2029
        || u == 0x202F || u == 0x205F || u == 0x3000
}

/// A fresh copy of a line.
pub(crate) fn copy_line(l: &Vec<char>) -> (r: Vec<char>)
    ensures
        r@ == l@,
{
    let mut r: Vec<char> = Vec::new();
    let mut j: usize = 0;
    while j < l.len()
        invariant
            j <= l@.len(),
            r@ == l@.take(j as int),
        decreases l@.len() - j,
    {
        r.push(l[j]);
        proof {
            assert(l@.take(j as int).push(l@[j as int]) =~= l@.take(j as int + 1));
        }
        j = j + 1;
    }
    proof {
        assert(l@.take(l@.len() as int) =~= l@);
    }
    r
}

/// Removes one trailing `'\r'`, if present.
fn chop_line(line: Vec<char>) -> (r: Vec<char>)
    ensures
        r@ == chop_cr(line@),
{
    let mut line = line;
    if line.len() > 0 && line[line.len() - 1] == '\r' {
        let _last = line.pop();
    }
    line
}

/// Splits a text into its lines, as [`crate::model::split_lines`] does.
pub(crate) fn split_to_lines(v: &Vec<char>) -> (r: Vec<Vec<char>>)
    ensures
        line_views(r@) == split_lines(v@),
{
    let mut out: Vec<Vec<char>> = Vec::new();
    let mut cur: Vec<char> = Vec::new();
    let mut start: usize = 0;
    let mut i: usize = 0;
    proof {
        assert(v@.skip(0) =~= v@);
        assert(cur@ =~= v@.subrange(0, 0));
        assert(line_views(out@) + split_lines(v@) =~= split_lines(v@));
    }
    while i < v.len()
        invariant
            start <= i <= v@.len(),
            cur@ == v@.subrange(start as int, i as int),
            forall|k: int| 0 <= k < cur@.len() ==> cur@[k] != '\n',
            split_lines(v@) == line_views(out@) + split_lines(v@.skip(start as int)),
        decreases v@.len() - i,
    {
        let c = v[i];
        if c == '\n' {
            proof {
                let s0 = v@.skip(start as int);
                assert forall|j: int| 0 <= j < i - start implies s0[j] != '\n' by {
                    assert(s0[j] == cur@[j]);
                }
                assert(s0[i - start as int] == v@[i as int]);
                lemma_find_nl_is(s0, i - start as int);
                assert(s0.take(i - start as int) =~= cur@);
                assert(s0.skip(i - start as int + 1) =~= v@.skip(i as int + 1));
            }
            let ghost old_out = out@;
            let ghost old_cur = cur@;
            let line = chop_line(cur);
            out.push(line);
            cur = Vec::new();
            proof {
                assert(line_views(out@) =~= line_views(old_out).push(chop_cr(old_cur)));
                assert(line_views(old_out) + (seq![chop_cr(old_cur)] + split_lines(
                    v@.skip(i as int + 1),
                )) =~= line_views(out@) + split_lines(v@.skip(i as int + 1)));
                assert(cur@ =~= v@.subrange(i as int + 1, i as int + 1));
            }
            start = i + 1;
        } else {
            cur.push(c);
            proof {
                assert(cur@ =~= v@.subrange(start as int, i as int + 1));
            }
        }
        i = i + 1;
    }
    if cur.len() > 0 {
        proof {
            let s0 = v@.skip(start as int);
            assert(s0 =~= cur@);
            assert forall|j: int| 0 <= j < s0.len() implies s0[j] != '\n' by {
                assert(s0[j] == cur@[j]);
            }
            lemma_find_nl_is(s0, s0.len() as int);
        }
        let ghost old_out = out@;
        let ghost old_cur = cur@;
        out.push(cur);
        proof {
            assert(line_views(out@) =~= line_views(old_out).push(old_cur));
            assert(line_views(old_out) + seq![old_cur] =~= line_views(out@));
        }
    } else {
        proof {
            assert(v@.skip(start as int) =~= Seq::<char>::empty());
            assert(line_views(out@) + split_lines(Seq::<char>::empty()) =~= line_views(out@));
        }
    }
    out
}

/// Appends the characters of `line` to `out`.
fn append_line(out: &mut Vec<char>, line: &Vec<char>)
    ensures
        final(out)@ == old(out)@ + line@,
{
    let mut j: usize = 0;
    proof {
        assert(out@ =~= old(out)@ + line@.take(0));
    }
    while j < line.len()
        invariant
            j <= line@.len(),
            out@ == old(out)@ + line@.take(j as int),
        decreases line@.len() - j,
    {
        out.push(line[j]);
        proof {
            assert(old(out)@ + line@.take(j as int + 1) =~= (old(out)@ + line@.take(j as int)).push(
                line@[j as int],
            ));
        }
        j = j + 1;
    }
    proof {
        assert(line@.take(line@.len() as int) =~= line@);
    }
}

/// Joins lines with `'\n'`, as [`crate::model::join_lines`] does.
pub(crate) fn join_to_text(ls: &Vec<Vec<char>>) -> (r: Vec<char>)
    ensures
        r@ == join_lines(line_views(ls@)),
{
    let mut out: Vec<char> = Vec::new();
    if ls.len() == 0 {
        proof {
            assert(line_views(ls@).len() == 0);
        }
        return out;
    }
    append_line(&mut out, &ls[0]);
    proof {
        assert(line_views(ls@)[0] == ls@[0]@);
        assert(Seq::<char>::empty() + ls@[0]@ =~= ls@[0]@);
    }
    let mut i: usize = 1;
    while i < ls.len()
        invariant
            1 <= i <= ls@.len(),
            join_lines(line_views(ls@)) == out@ + join_rest(line_views(ls@).skip(i as int)),
        decreases ls@.len() - i,
    {
        let ghost before = out@;
        out.push('\n');
        append_line(&mut out, &ls[i]);
        proof {
            let lv = line_views(ls@);
            assert(lv.skip(i as int)[0] == lv[i as int]);
            assert(lv[i as int] == ls@[i as int]@);
            assert(lv.skip(i as int).skip(1) =~= lv.skip(i as int + 1));
            assert(out@ =~= before + (seq!['\n'] + lv[i as int]));
            assert(before + (seq!['\n'] + lv[i as int] + join_rest(lv.skip(i as int + 1))) =~= out@
                + join_rest(lv.skip(i as int + 1)));
        }
        i = i + 1;
    }
    proof {
        assert(line_views(ls@).skip(ls@.len() as int) =~= Seq::<Seq<char>>::empty());
        assert(out@ + Seq::<char>::empty() =~= out@);
    }
    out
}

/// Removes every whitespace character from the end of a line, as
/// [`crate::model::trim_end_ws`] does.
pub(crate) fn trim_line(l: &Vec<char>) -> (r: Vec<char>)
    ensures
        r@ == trim_end_ws(l@),
{
    let mut n: usize = l.len();
    proof {
        assert(l@.take(l@.len() as int) =~= l@);
    }
    loop
        invariant
            n <= l@.len(),
            trim_end_ws(l@) == trim_end_ws(l@.take(n as int)),
        ensures
            n <= l@.len(),
            trim_end_ws(l@) == l@.take(n as int),
        decreases n,
    {
        if n == 0 {
            proof {
                assert(l@.take(0) =~= Seq::<char>::empty());
            }
            break ;
        }
        let c = l[n - 1];
        proof {
            assert(l@.take(n as int).last() == l@[n as int - 1]);
        }
        if !is_ws(c) {
            break ;
        }
        proof {
            assert(l@.take(n as int).drop_last() =~= l@.take(n as int - 1));
        }
        n = n - 1;
    }
    let mut r: Vec<char> = Vec::new();
    let mut j: usize = 0;
    while j < n
        invariant
            j <= n <= l@.len(),
            r@ == l@.take(n as int).take(j as int),
        decreases n - j,
    {
        r.push(l[j]);
        proof {
            assert(l@.take(n as int).take(j as int).push(l@[j as int]) =~= l@.take(n as int).take(
                j as int + 1,
            ));
        }
        j = j + 1;
    }
    proof {
        assert(l@.take(n as int).take(n as int) =~= l@.take(n as int));
    }
    r
}

/// Whether the line holds nothing but whitespace.
pub(crate) fn line_is_blank(l: &Vec<char>) -> (b: bool)
    ensures
        b == is_blank(l@),
{
    let mut j: usize = 0;
    while j < l.len()
        invariant
            j <= l@.len(),
            forall|k: int| 0 <= k < j ==> is_ws_char(l@[k]),
        decreases l@.len() - j,
    {
        if !is_ws(l[j]) {
            return false;
        }
        j = j + 1;
    }
    true
}

} // verus!
