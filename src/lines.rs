//! Splitting text into lines and joining lines back into text.
//!
//! A line ends at a newline character, or at a carriage return followed by a
//! newline: neither is part of the line. The text after the last newline is a
//! line of its own when it is not empty, and keeps any carriage return at its
//! end. A carriage return anywhere else is an ordinary character.

use vstd::prelude::*;

verus! {

/// The pieces of `s` between newline characters, in order. There is always
/// at least one: the (possibly empty) text after the last newline.
pub open spec fn pieces(s: Seq<char>) -> Seq<Seq<char>>
    decreases s.len(),
{
    if s.len() == 0 {
        seq![Seq::empty()]
    } else {
        let p = pieces(s.drop_last());
        if s.last() == '\n' {
            p.push(Seq::empty())
        } else {
            p.update(p.len() - 1, p.last().push(s.last()))
        }
    }
}

/// A piece that a newline ended, without the carriage return before that
/// newline.
pub open spec fn strip_cr(l: Seq<char>) -> Seq<char> {
    if l.len() > 0 && l.last() == '\r' {
        l.drop_last()
    } else {
        l
    }
}

/// The lines of `s`: the pieces that a newline ended, each without a
/// carriage return before that newline, then the text after the last
/// newline when it is not empty.
pub open spec fn lines_of(s: Seq<char>) -> Seq<Seq<char>> {
    let p = pieces(s);
    let ended = p.drop_last().map_values(|l: Seq<char>| strip_cr(l));
    if p.last().len() == 0 {
        ended
    } else {
        ended.push(p.last())
    }
}

/// Each line followed by a newline.
pub open spec fn terminated(ls: Seq<Seq<char>>) -> Seq<char>
    decreases ls.len(),
{
    if ls.len() == 0 {
        Seq::empty()
    } else {
        terminated(ls.drop_last()) + ls.last() + seq!['\n']
    }
}

/// The lines joined with newlines, with exactly one newline at the end.
pub open spec fn render(ls: Seq<Seq<char>>) -> Seq<char> {
    if ls.len() == 0 {
        seq!['\n']
    } else {
        terminated(ls)
    }
}

/// No line holds a newline character.
pub open spec fn single_lines(ls: Seq<Seq<char>>) -> bool {
    forall|i: int, j: int| 0 <= i < ls.len() && 0 <= j < ls[i].len() ==> ls[i][j] != '\n'
}

/// No line ends with a carriage return.
pub open spec fn no_cr_ends(ls: Seq<Seq<char>>) -> bool {
    forall|i: int| 0 <= i < ls.len() ==> strip_cr(#[trigger] ls[i]) == ls[i]
}

pub proof fn lemma_pieces_nonempty(s: Seq<char>)
    ensures
        pieces(s).len() >= 1,
    decreases s.len(),
{
    if s.len() > 0 {
        lemma_pieces_nonempty(s.drop_last());
    }
}

/// Appending text without a newline extends the last piece.
pub proof fn lemma_pieces_append_line(s: Seq<char>, l: Seq<char>)
    requires
        forall|j: int| 0 <= j < l.len() ==> l[j] != '\n',
    ensures
        pieces(s + l) == pieces(s).update(pieces(s).len() - 1, pieces(s).last() + l),
    decreases l.len(),
{
    lemma_pieces_nonempty(s);
    if l.len() == 0 {
        assert(s + l =~= s);
        assert(pieces(s).last() + l =~= pieces(s).last());
        assert(pieces(s).update(pieces(s).len() - 1, pieces(s).last()) =~= pieces(s));
    } else {
        let l0 = l.drop_last();
        lemma_pieces_append_line(s, l0);
        assert((s + l).drop_last() =~= s + l0);
        assert((s + l).last() == l.last());
        assert(pieces(s).last() + l0 + seq![l.last()] =~= pieces(s).last() + l);
        assert((pieces(s).last() + l0).push(l.last()) =~= pieces(s).last() + l);
        assert(pieces(s + l) =~= pieces(s).update(pieces(s).len() - 1, pieces(s).last() + l));
    }
}

/// The pieces of terminated lines are those lines and an empty tail.
pub proof fn lemma_pieces_terminated(ls: Seq<Seq<char>>)
    requires
        single_lines(ls),
    ensures
        pieces(terminated(ls)) == ls.push(Seq::empty()),
    decreases ls.len(),
{
    if ls.len() == 0 {
        assert(pieces(Seq::<char>::empty()) =~= ls.push(Seq::empty()));
    } else {
        let init = ls.drop_last();
        assert(single_lines(init));
        lemma_pieces_terminated(init);
        let t = terminated(init);
        let l = ls.last();
        assert(forall|j: int| 0 <= j < l.len() ==> l[j] != '\n') by {
            assert forall|j: int| 0 <= j < l.len() implies l[j] != '\n' by {
                assert(ls[ls.len() - 1][j] != '\n');
            }
        }
        lemma_pieces_append_line(t, l);
        let s = terminated(ls);
        assert(s.drop_last() =~= t + l);
        assert(Seq::<char>::empty() + l =~= l);
        assert(pieces(t + l) =~= init.push(l));
        assert(init.push(l) =~= ls);
    }
}

/// Lines joined with newlines and split again come back unchanged.
pub proof fn lemma_lines_of_render(ls: Seq<Seq<char>>)
    requires
        single_lines(ls),
        no_cr_ends(ls),
        ls.len() > 0,
    ensures
        lines_of(render(ls)) == ls,
{
    lemma_pieces_terminated(ls);
    assert(ls.push(Seq::empty()).drop_last() =~= ls);
    assert(ls.map_values(|l: Seq<char>| strip_cr(l)) =~= ls);
}

/// The characters of `s`, in order.
pub fn chars_of(s: &str) -> (r: Vec<char>)
    ensures
        r@ == s@,
{
    let mut r: Vec<char> = Vec::new();
    for c in it: s.chars()
        invariant
            r@ == it.seq().take(it.index() as int),
    {
        r.push(c);
    }
    r
}

/// The bounds `(start, end)` of each line of `v`, as positions in `v`.
pub fn line_bounds(v: &Vec<char>) -> (r: Vec<(usize, usize)>)
    ensures
        r@.len() == lines_of(v@).len(),
        forall|k: int| 0 <= k < r@.len() ==> r@[k].0 <= #[trigger] r@[k].1 <= v@.len(),
        forall|k: int|
            0 <= k < r@.len() ==> #[trigger] v@.subrange(r@[k].0 as int, r@[k].1 as int)
                == lines_of(v@)[k],
{
    let mut r: Vec<(usize, usize)> = Vec::new();
    let mut start: usize = 0;
    let mut i: usize = 0;
    proof {
        assert(v@.take(0) =~= Seq::<char>::empty());
    }
    while i < v.len()
        invariant
            start <= i <= v@.len(),
            r@.len() + 1 == pieces(v@.take(i as int)).len(),
            forall|k: int| 0 <= k < r@.len() ==> r@[k].0 <= #[trigger] r@[k].1 <= start,
            forall|k: int|
                0 <= k < r@.len() ==> #[trigger] v@.subrange(r@[k].0 as int, r@[k].1 as int)
                    == strip_cr(pieces(v@.take(i as int))[k]),
            v@.subrange(start as int, i as int) == pieces(v@.take(i as int)).last(),
        decreases v@.len() - i,
    {
        let ghost before = v@.take(i as int);
        let ghost after = v@.take(i + 1);
        proof {
            assert(after.drop_last() =~= before);
            assert(after.last() == v@[i as int]);
            lemma_pieces_nonempty(before);
        }
        let ghost r0 = r@;
        let ghost s0 = start;
        if v[i] == '\n' {
            let end = if i > start && v[i - 1] == '\r' {
                i - 1
            } else {
                i
            };
            proof {
                assert(v@.subrange(start as int, end as int) =~= strip_cr(
                    v@.subrange(start as int, i as int),
                ));
            }
            r.push((start, end));
            start = i + 1;
            proof {
                assert(pieces(after) == pieces(before).push(Seq::empty()));
                assert(v@.subrange(start as int, i + 1) =~= Seq::<char>::empty());
                assert forall|k: int| 0 <= k < r@.len() implies #[trigger] v@.subrange(r@[k].0 as int, r@[k].1 as int)
                    == strip_cr(pieces(after)[k]) by {
                    if k < r0.len() {
                        assert(r@[k] == r0[k]);
                        assert(v@.subrange(r0[k].0 as int, r0[k].1 as int) == strip_cr(pieces(before)[k]));
                        assert(pieces(after)[k] == pieces(before)[k]);
                    } else {
                        assert(r@[k] == (s0, end));
                    }
                }
            }
        } else {
            proof {
                let pb = pieces(before);
                assert(pieces(after) == pb.update(pb.len() - 1, pb.last().push(v@[i as int])));
                assert(v@.subrange(start as int, i + 1) =~= v@.subrange(start as int, i as int).push(
                    v@[i as int],
                ));
                assert forall|k: int| 0 <= k < r@.len() implies #[trigger] v@.subrange(r@[k].0 as int, r@[k].1 as int)
                    == strip_cr(pieces(after)[k]) by {
                    assert(v@.subrange(r0[k].0 as int, r0[k].1 as int) == strip_cr(pieces(before)[k]));
                    assert(pieces(after)[k] == pieces(before)[k]);
                }
            }
        }
        i = i + 1;
        proof {
            assert(v@.take(i as int) == after);
        }
    }
    proof {
        assert(v@.take(v@.len() as int) =~= v@);
        lemma_pieces_nonempty(v@);
    }
    let ghost r0 = r@;
    if start < v.len() {
        r.push((start, v.len()));
    }
    proof {
        let p = pieces(v@);
        if start < v@.len() {
            assert(p.last().len() > 0);
            assert forall|k: int| 0 <= k < r@.len() implies #[trigger] v@.subrange(
                r@[k].0 as int,
                r@[k].1 as int,
            ) == lines_of(v@)[k] by {
                if k < r0.len() {
                    assert(r@[k] == r0[k]);
                    assert(v@.subrange(r0[k].0 as int, r0[k].1 as int) == strip_cr(p[k]));
                } else {
                    assert(r@[k] == (start, v@.len() as usize));
                }
            }
        } else {
            assert(p.last().len() == 0);
            assert forall|k: int| 0 <= k < r@.len() implies #[trigger] v@.subrange(
                r@[k].0 as int,
                r@[k].1 as int,
            ) == lines_of(v@)[k] by {
                assert(v@.subrange(r@[k].0 as int, r@[k].1 as int) == strip_cr(p[k]));
            }
        }
    }
    r
}

/// The characters of `v` from position `start` up to `end`.
pub fn copy_range(v: &Vec<char>, start: usize, end: usize) -> (r: Vec<char>)
    requires
        start <= end <= v@.len(),
    ensures
        r@ == v@.subrange(start as int, end as int),
{
    let mut r: Vec<char> = Vec::new();
    let mut i: usize = start;
    while i < end
        invariant
            start <= i <= end <= v@.len(),
            r@ == v@.subrange(start as int, i as int),
        decreases end - i,
    {
        r.push(v[i]);
        i = i + 1;
        proof {
            assert(r@ =~= v@.subrange(start as int, i as int));
        }
    }
    r
}

/// Appends the characters of `line` to `out`.
pub fn push_all(out: &mut Vec<char>, line: &Vec<char>)
    ensures
        final(out)@ == old(out)@ + line@,
{
    let mut i: usize = 0;
    while i < line.len()
        invariant
            i <= line@.len(),
            out@ == old(out)@ + line@.take(i as int),
        decreases line@.len() - i,
    {
        out.push(line[i]);
        i = i + 1;
        proof {
            assert(out@ =~= old(out)@ + line@.take(i as int));
        }
    }
    proof {
        assert(line@.take(line@.len() as int) =~= line@);
    }
}

/// Appends the characters of `line` and then a newline to `out`.
pub fn push_line(out: &mut Vec<char>, line: &Vec<char>)
    ensures
        final(out)@ == old(out)@ + line@ + seq!['\n'],
{
    push_all(out, line);
    out.push('\n');
}

/// The lines joined with newlines, with exactly one newline at the end.
pub fn render_lines(ls: &Vec<Vec<char>>) -> (r: Vec<char>)
    ensures
        r@ == render(ls@.map_values(|l: Vec<char>| l@)),
{
    let ghost views = ls@.map_values(|l: Vec<char>| l@);
    let mut out: Vec<char> = Vec::new();
    if ls.len() == 0 {
        out.push('\n');
        proof {
            assert(out@ =~= seq!['\n']);
        }
        return out;
    }
    let mut i: usize = 0;
    while i < ls.len()
        invariant
            i <= ls@.len(),
            views == ls@.map_values(|l: Vec<char>| l@),
            out@ == terminated(views.take(i as int)),
        decreases ls@.len() - i,
    {
        push_line(&mut out, &ls[i]);
        proof {
            assert(views.take(i + 1).drop_last() =~= views.take(i as int));
        }
        i = i + 1;
    }
    proof {
        assert(views.take(ls@.len() as int) =~= views);
    }
    out
}

/// Relies on `String`'s `FromIterator<&char>`: the string holds the given
/// characters in order.
#[verifier::external_body]
pub(crate) fn string_from_chars(v: &Vec<char>) -> (r: String)
    ensures
        r@ == v@,
{
    v.iter().collect()
}

} // verus!
