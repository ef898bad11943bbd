//! Section markers and the two line rules, in two dialects.
//!
//! Strict dialect (the default):
//! - a marker is `# ++ ` at the very start of the line, then a name of 1 to
//!   100 characters out of `A-Z a-z 0-9 _ -`; longer runs are cut at 100, and
//!   whatever follows the name (a closing `++`, say) is not looked at;
//! - a commented line is switched on only when, after the `#` and at most one
//!   space, it reads as an assignment: word characters, then `=`.
//!
//! Lenient dialect:
//! - a marker is one or more `#`, any number of spaces, `++`, any number of
//!   spaces, then a name of one or more word characters (`A-Z a-z 0-9 _`);
//!   word characters are ASCII only here, so a non-ASCII letter ends the
//!   name (`# ++ café` names `caf`);
//! - a commented line is switched on by dropping the `#` and at most one
//!   space after it, whatever follows.
//!
//! In both dialects a line is switched off by putting `# ` in front of it,
//! unless it is empty or already starts with `#`.

use vstd::prelude::*;
use crate::lines::{copy_range, push_all};

verus! {

/// Which marker grammar and which switch-on rule are in force.
#[derive(Clone, Copy, PartialEq, Eq, Debug, Structural)]
pub enum Dialect {
    Strict,
    Lenient,
}

/// The character classes that the grammar is made of.
#[derive(Clone, Copy, PartialEq, Eq, Debug, Structural)]
pub enum CharClass {
    /// `#`
    Hash,
    /// ` `
    Space,
    /// `A-Z a-z 0-9 _`
    Word,
    /// `A-Z a-z 0-9 _ -`
    Name,
}

/// The longest name that the strict dialect reads.
pub const MAX_NAME_LEN: usize = 100;

pub open spec fn is_word_char(c: char) -> bool {
    ('a' <= c && c <= 'z') || ('A' <= c && c <= 'Z') || ('0' <= c && c <= '9') || c == '_'
}

pub open spec fn in_class(k: CharClass, c: char) -> bool {
    match k {
        CharClass::Hash => c == '#',
        CharClass::Space => c == ' ',
        CharClass::Word => is_word_char(c),
        CharClass::Name => is_word_char(c) || c == '-',
    }
}

/// How many characters at the start of `s` are in class `k`.
pub open spec fn run_len(s: Seq<char>, k: CharClass) -> nat
    decreases s.len(),
{
    if s.len() > 0 && in_class(k, s[0]) {
        1 + run_len(s.drop_first(), k)
    } else {
        0
    }
}

/// What opens a marker line in the strict dialect.
pub open spec fn strict_opening() -> Seq<char> {
    seq!['#', ' ', '+', '+', ' ']
}

/// The name of a strict marker line, if `line` is one.
pub open spec fn strict_marker(line: Seq<char>) -> Option<Seq<char>> {
    if line.len() >= 5 && line.take(5) == strict_opening() {
        let rest = line.skip(5);
        let run = run_len(rest, CharClass::Name);
        let n = if run > MAX_NAME_LEN { MAX_NAME_LEN as nat } else { run };
        if n > 0 {
            Some(rest.take(n as int))
        } else {
            None
        }
    } else {
        None
    }
}

/// The name of a lenient marker line, if `line` is one.
pub open spec fn lenient_marker(line: Seq<char>) -> Option<Seq<char>> {
    let hashes = run_len(line, CharClass::Hash);
    let a = line.skip(hashes as int);
    let b = a.skip(run_len(a, CharClass::Space) as int);
    if hashes > 0 && b.len() >= 2 && b[0] == '+' && b[1] == '+' {
        let c = b.skip(2);
        let d = c.skip(run_len(c, CharClass::Space) as int);
        let n = run_len(d, CharClass::Word);
        if n > 0 {
            Some(d.take(n as int))
        } else {
            None
        }
    } else {
        None
    }
}

/// The section name that `line` declares, if it is a marker line.
pub open spec fn marker_name(line: Seq<char>, d: Dialect) -> Option<Seq<char>> {
    match d {
        Dialect::Strict => strict_marker(line),
        Dialect::Lenient => lenient_marker(line),
    }
}

/// Word characters followed by `=`.
pub open spec fn is_assignment(s: Seq<char>) -> bool {
    let n = run_len(s, CharClass::Word);
    0 < n < s.len() && s[n as int] == '='
}

/// A line with its leading `#` and at most one space after it taken off.
pub open spec fn uncommented(line: Seq<char>) -> Seq<char> {
    if line.len() >= 2 && line[1] == ' ' {
        line.skip(2)
    } else {
        line.skip(1)
    }
}

/// A line as it reads in a selected section.
pub open spec fn activated(line: Seq<char>, d: Dialect) -> Seq<char> {
    if line.len() > 0 && line[0] == '#' {
        match d {
            Dialect::Lenient => uncommented(line),
            Dialect::Strict => if is_assignment(uncommented(line)) {
                uncommented(line)
            } else {
                line
            },
        }
    } else {
        line
    }
}

/// A line as it reads in a section that is not selected.
pub open spec fn deactivated(line: Seq<char>) -> Seq<char> {
    if line.len() == 0 || line[0] == '#' {
        line
    } else {
        seq!['#', ' '] + line
    }
}

/// Whether `c` is in class `k`.
pub fn class_has(k: CharClass, c: char) -> (r: bool)
    ensures
        r == in_class(k, c),
{
    match k {
        CharClass::Hash => c == '#',
        CharClass::Space => c == ' ',
        CharClass::Word => ('a' <= c && c <= 'z') || ('A' <= c && c <= 'Z') || ('0' <= c && c
            <= '9') || c == '_',
        CharClass::Name => ('a' <= c && c <= 'z') || ('A' <= c && c <= 'Z') || ('0' <= c && c
            <= '9') || c == '_' || c == '-',
    }
}

/// The end of the run of class `k` that starts at `start`.
pub fn run_end(v: &Vec<char>, start: usize, k: CharClass) -> (r: usize)
    requires
        start <= v@.len(),
    ensures
        r == start + run_len(v@.skip(start as int), k),
        r <= v@.len(),
{
    let mut i: usize = start;
    while i < v.len() && class_has(k, v[i])
        invariant
            start <= i <= v@.len(),
            run_len(v@.skip(start as int), k) == (i - start) + run_len(v@.skip(i as int), k),
        decreases v@.len() - i,
    {
        proof {
            assert(v@.skip(i as int).drop_first() =~= v@.skip(i + 1));
        }
        i = i + 1;
    }
    i
}

pub proof fn lemma_run_len_bound(s: Seq<char>, k: CharClass)
    ensures
        run_len(s, k) <= s.len(),
        forall|j: int| 0 <= j < run_len(s, k) ==> in_class(k, #[trigger] s[j]),
        run_len(s, k) < s.len() ==> !in_class(k, s[run_len(s, k) as int]),
    decreases s.len(),
{
    if s.len() > 0 && in_class(k, s[0]) {
        lemma_run_len_bound(s.drop_first(), k);
        assert forall|j: int| 0 <= j < run_len(s, k) implies in_class(k, #[trigger] s[j]) by {
            if j > 0 {
                assert(s[j] == s.drop_first()[j - 1]);
            }
        }
    }
}

/// Where the name of a marker line stands in it, if `line` is one.
pub fn marker_span(line: &Vec<char>, d: Dialect) -> (r: Option<(usize, usize)>)
    ensures
        match r {
            Some((a, b)) => a <= b <= line@.len() && marker_name(line@, d) == Some(
                line@.subrange(a as int, b as int),
            ),
            None => marker_name(line@, d) is None,
        },
{
    let ghost s = line@;
    match d {
        Dialect::Strict => {
            if line.len() < 5 || line[0] != '#' || line[1] != ' ' || line[2] != '+' || line[3]
                != '+' || line[4] != ' ' {
                proof {
                    if s.len() >= 5 && s.take(5) == strict_opening() {
                        assert(s.take(5)[0] == '#' && s.take(5)[1] == ' ' && s.take(5)[2] == '+'
                            && s.take(5)[3] == '+' && s.take(5)[4] == ' ');
                    }
                }
                return None;
            }
            proof {
                assert(s.take(5) =~= strict_opening());
            }
            let end = run_end(line, 5, CharClass::Name);
            let stop = if end - 5 > MAX_NAME_LEN {
                5 + MAX_NAME_LEN
            } else {
                end
            };
            if stop == 5 {
                return None;
            }
            proof {
                assert(s.skip(5).take(stop - 5) =~= s.subrange(5, stop as int));
            }
            Some((5, stop))
        },
        Dialect::Lenient => {
            let p1 = run_end(line, 0, CharClass::Hash);
            proof {
                assert(s.skip(0) =~= s);
            }
            let p2 = run_end(line, p1, CharClass::Space);
            proof {
                let a = s.skip(p1 as int);
                assert(a.skip(run_len(a, CharClass::Space) as int) =~= s.skip(p2 as int));
            }
            if p1 == 0 || line.len() - p2 < 2 || line[p2] != '+' || line[p2 + 1] != '+' {
                return None;
            }
            let p3 = run_end(line, p2 + 2, CharClass::Space);
            let p4 = run_end(line, p3, CharClass::Word);
            proof {
                let b = s.skip(p2 as int);
                let c = b.skip(2);
                assert(c =~= s.skip(p2 + 2));
                assert(c.skip(run_len(c, CharClass::Space) as int) =~= s.skip(p3 as int));
                assert(s.skip(p3 as int).take(p4 - p3) =~= s.subrange(p3 as int, p4 as int));
            }
            if p4 == p3 {
                return None;
            }
            Some((p3, p4))
        },
    }
}

/// The line as it reads in a selected section.
pub fn activate(line: &Vec<char>, d: Dialect) -> (r: Vec<char>)
    ensures
        r@ == activated(line@, d),
{
    if line.len() == 0 || line[0] != '#' {
        return copy_range(line, 0, line.len());
    }
    let start: usize = if line.len() >= 2 && line[1] == ' ' {
        2
    } else {
        1
    };
    proof {
        assert(line@.subrange(start as int, line@.len() as int) =~= uncommented(line@));
    }
    match d {
        Dialect::Lenient => copy_range(line, start, line.len()),
        Dialect::Strict => {
            let n = run_end(line, start, CharClass::Word);
            proof {
                let u = uncommented(line@);
                assert(u =~= line@.skip(start as int));
                lemma_run_len_bound(u, CharClass::Word);
                if n < line@.len() {
                    assert(u[n - start] == line@[n as int]);
                }
            }
            if n > start && n < line.len() && line[n] == '=' {
                copy_range(line, start, line.len())
            } else {
                copy_range(line, 0, line.len())
            }
        },
    }
}

/// The line as it reads in a section that is not selected.
pub fn deactivate(line: &Vec<char>) -> (r: Vec<char>)
    ensures
        r@ == deactivated(line@),
{
    if line.len() == 0 || line[0] == '#' {
        proof {
            assert(line@.subrange(0, line@.len() as int) =~= line@);
        }
        return copy_range(line, 0, line.len());
    }
    let mut r: Vec<char> = Vec::new();
    r.push('#');
    r.push(' ');
    push_all(&mut r, line);
    proof {
        assert(r@ =~= seq!['#', ' '] + line@);
    }
    r
}

} // verus!
