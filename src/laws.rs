//! Properties that hold of the rewriting engine for every input.

use vstd::prelude::*;
use crate::lines::{
    lemma_lines_of_render, lines_of, no_cr_ends, pieces, render, single_lines, strip_cr,
};
use crate::marker::{
    activated, deactivated, in_class, is_assignment, marker_name, run_len, strict_marker,
    strict_opening, uncommented, CharClass, Dialect, MAX_NAME_LEN,
};
use crate::parser::{
    emitted, has_section, next_status, rewrite_result, rewritten, section_names, status_before,
    not_found_message, ParseStatus,
};

verus! {

proof fn lemma_pieces_single(s: Seq<char>)
    ensures
        single_lines(pieces(s)),
    decreases s.len(),
{
    if s.len() > 0 {
        lemma_pieces_single(s.drop_last());
        crate::lines::lemma_pieces_nonempty(s.drop_last());
        let p = pieces(s.drop_last());
        if s.last() != '\n' {
            let q = p.update(p.len() - 1, p.last().push(s.last()));
            assert forall|i: int, j: int| 0 <= i < q.len() && 0 <= j < q[i].len() implies q[i][j]
                != '\n' by {
                if i == p.len() - 1 && j < p.last().len() {
                    assert(q[i][j] == p[i][j]);
                }
            }
        }
    }
}

proof fn lemma_lines_single(s: Seq<char>)
    ensures
        single_lines(lines_of(s)),
{
    lemma_pieces_single(s);
    crate::lines::lemma_pieces_nonempty(s);
    let p = pieces(s);
    assert forall|i: int, j: int| 0 <= i < lines_of(s).len() && 0 <= j < lines_of(s)[i].len() implies lines_of(s)[i][j] != '\n' by {
        assert(p[i][j] != '\n');
        assert(lines_of(s)[i][j] == p[i][j]);
    }
}

/// A strict marker line starts with `#`.
proof fn lemma_strict_marker_hash(l: Seq<char>)
    ensures
        strict_marker(l) is Some ==> l.len() > 0 && l[0] == '#',
{
    if strict_marker(l) is Some {
        assert(l.take(5)[0] == l[0]);
    }
}

/// What the strict dialect writes for a line that commenting out does not
/// turn into a marker is read back the same way, and written back as it is.
proof fn lemma_emitted_stable(st: ParseStatus, l: Seq<char>, name: Seq<char>)
    requires
        marker_name(deactivated(l), Dialect::Strict) == marker_name(l, Dialect::Strict),
        forall|j: int| 0 <= j < l.len() ==> l[j] != '\n',
        strip_cr(l) == l,
    ensures
        ({
            let o = emitted(st, l, name, Dialect::Strict);
            &&& marker_name(o, Dialect::Strict) == marker_name(l, Dialect::Strict)
            &&& (o.len() == 0 <==> l.len() == 0)
            &&& emitted(st, o, name, Dialect::Strict) == o
            &&& next_status(st, o, name, Dialect::Strict) == next_status(st, l, name, Dialect::Strict)
            &&& forall|j: int| 0 <= j < o.len() ==> o[j] != '\n'
            &&& strip_cr(o) == o
        }),
{
    let d = Dialect::Strict;
    let o = emitted(st, l, name, d);
    if l.len() == 0 || marker_name(l, d) is Some {
        return;
    }
    match st {
        ParseStatus::Active => {
            if l[0] == '#' && is_assignment(uncommented(l)) {
                let u = uncommented(l);
                assert(o == u);
                assert(in_class(CharClass::Word, u[0]));
                lemma_strict_marker_hash(u);
                assert(forall|j: int| 0 <= j < u.len() ==> u[j] == l[j + (l.len() - u.len())]);
                assert(u.last() == l.last());
            }
        },
        ParseStatus::Inactive => {
            assert(o == deactivated(l));
            if l[0] != '#' {
                assert(o[0] == '#');
                assert forall|j: int| 0 <= j < o.len() implies o[j] != '\n' by {
                    if j >= 2 {
                        assert(o[j] == l[j - 2]);
                    }
                }
                assert(o.last() == l.last());
            }
        },
        ParseStatus::Ignore => {},
    }
}

/// Along a rewrite, the second pass reads every line in the same state as
/// the first.
proof fn lemma_second_pass(ls: Seq<Seq<char>>, name: Seq<char>, i: int)
    requires
        0 <= i <= ls.len(),
        single_lines(ls),
        no_cr_ends(ls),
        forall|k: int|
            0 <= k < ls.len() ==> marker_name(deactivated(#[trigger] ls[k]), Dialect::Strict)
                == marker_name(ls[k], Dialect::Strict),
    ensures
        status_before(rewritten(ls, name, Dialect::Strict), i, name, Dialect::Strict)
            == status_before(ls, i, name, Dialect::Strict),
    decreases i,
{
    let d = Dialect::Strict;
    if i > 0 {
        lemma_second_pass(ls, name, i - 1);
        let st = status_before(ls, i - 1, name, d);
        let l = ls[i - 1];
        assert(forall|j: int| 0 <= j < l.len() ==> l[j] != '\n');
        assert(strip_cr(l) == l);
        lemma_emitted_stable(st, l, name);
    }
}

/// Rewriting is idempotent: rewriting a result again for the same name gives
/// that result back. This holds wherever commenting out a line never makes a
/// marker line of it, and no line ends with a carriage return (one that
/// stays after a line ending is taken off, or one at the very end of the
/// text).
pub proof fn law_rewrite_idempotent(text: Seq<char>, name: Seq<char>)
    requires
        no_cr_ends(lines_of(text)),
        forall|k: int|
            0 <= k < lines_of(text).len() ==> marker_name(
                deactivated(#[trigger] lines_of(text)[k]),
                Dialect::Strict,
            ) == marker_name(lines_of(text)[k], Dialect::Strict),
    ensures
        rewrite_result(text, name, Dialect::Strict) matches Ok(out) ==> rewrite_result(
            out,
            name,
            Dialect::Strict,
        ) == Ok::<Seq<char>, Seq<char>>(out),
{
    let d = Dialect::Strict;
    let ls = lines_of(text);
    let os = rewritten(ls, name, d);
    if has_section(ls, name, d) {
        lemma_lines_single(text);
        assert forall|i: int, j: int| 0 <= i < os.len() && 0 <= j < os[i].len() implies os[i][j]
            != '\n' by {
            let l = ls[i];
            assert(forall|j: int| 0 <= j < l.len() ==> l[j] != '\n');
            assert(strip_cr(l) == l);
            lemma_emitted_stable(status_before(ls, i, name, d), l, name);
        }
        assert forall|i: int| 0 <= i < os.len() implies strip_cr(#[trigger] os[i]) == os[i] by {
            let l = ls[i];
            assert(forall|j: int| 0 <= j < l.len() ==> l[j] != '\n');
            assert(strip_cr(l) == l);
            lemma_emitted_stable(status_before(ls, i, name, d), l, name);
        }
        lemma_lines_of_render(os);
        let out = render(os);
        assert(lines_of(out) == os);
        assert forall|i: int| 0 <= i < os.len() implies #[trigger] emitted(
            status_before(os, i, name, d),
            os[i],
            name,
            d,
        ) == os[i] by {
            lemma_second_pass(ls, name, i);
            let l = ls[i];
            assert(forall|j: int| 0 <= j < l.len() ==> l[j] != '\n');
            assert(strip_cr(l) == l);
            lemma_emitted_stable(status_before(ls, i, name, d), l, name);
        }
        assert(rewritten(os, name, d) =~= os);
        let j = choose|j: int| 0 <= j < ls.len() && marker_name(ls[j], d) == Some(name);
        let l = ls[j];
        assert(forall|k: int| 0 <= k < l.len() ==> l[k] != '\n');
        assert(strip_cr(l) == l);
        lemma_emitted_stable(status_before(ls, j, name, d), l, name);
        assert(marker_name(os[j], d) == Some(name));
        assert(has_section(os, name, d));
    }
}

/// A blank line is written back as it is, and the line after it is read
/// outside any section.
pub proof fn law_blank_line_resets(ls: Seq<Seq<char>>, name: Seq<char>, d: Dialect, i: int)
    requires
        0 <= i < ls.len(),
        ls[i].len() == 0,
    ensures
        rewritten(ls, name, d)[i] == ls[i],
        status_before(ls, i + 1, name, d) == ParseStatus::Ignore,
{
}

/// A marker line is written back as it is, whichever name it declares.
pub proof fn law_marker_line_kept(ls: Seq<Seq<char>>, name: Seq<char>, d: Dialect, i: int)
    requires
        0 <= i < ls.len(),
        marker_name(ls[i], d) is Some,
    ensures
        rewritten(ls, name, d)[i] == ls[i],
{
}

/// A text without marker lines has no sections, and rewriting it fails with
/// the not-found error whatever the name.
pub proof fn law_no_markers(text: Seq<char>, name: Seq<char>, d: Dialect)
    requires
        forall|i: int| 0 <= i < lines_of(text).len() ==> marker_name(#[trigger] lines_of(text)[i], d) is None,
    ensures
        section_names(lines_of(text), d) == Set::<Seq<char>>::empty(),
        rewrite_result(text, name, d) == Err::<Seq<char>, Seq<char>>(not_found_message(name)),
{
    assert(section_names(lines_of(text), d) =~= Set::<Seq<char>>::empty());
}

proof fn lemma_run_len_prefix(name: Seq<char>, rest: Seq<char>, k: CharClass)
    requires
        forall|j: int| 0 <= j < name.len() ==> in_class(k, #[trigger] name[j]),
        rest.len() == 0 || !in_class(k, rest[0]),
    ensures
        run_len(name + rest, k) == name.len(),
    decreases name.len(),
{
    if name.len() == 0 {
        assert(name + rest =~= rest);
    } else {
        let tail = name.drop_first();
        assert forall|j: int| 0 <= j < tail.len() implies in_class(k, #[trigger] tail[j]) by {
            assert(tail[j] == name[j + 1]);
        }
        lemma_run_len_prefix(tail, rest, k);
        assert((name + rest).drop_first() =~= tail + rest);
        assert((name + rest)[0] == name[0]);
    }
}

/// Every well-formed strict marker line is read, and gives its name: `# ++ `,
/// then 1 to 100 name characters, then anything that does not start with a
/// name character.
pub proof fn law_strict_marker_read(name: Seq<char>, rest: Seq<char>)
    requires
        1 <= name.len() <= MAX_NAME_LEN,
        forall|j: int| 0 <= j < name.len() ==> in_class(CharClass::Name, #[trigger] name[j]),
        rest.len() == 0 || !in_class(CharClass::Name, rest[0]),
    ensures
        marker_name(strict_opening() + name + rest, Dialect::Strict) == Some(name),
{
    let line = strict_opening() + name + rest;
    assert(line.take(5) =~= strict_opening());
    assert(line.skip(5) =~= name + rest);
    lemma_run_len_prefix(name, rest, CharClass::Name);
    assert((name + rest).take(name.len() as int) =~= name);
}

} // verus!
