//! The rewriting engine: a three-state machine run over the lines of a file.
//!
//! The state starts as `Ignore` and goes back to it at every blank line. A
//! marker line sets it to `Active` when it names the selection and to
//! `Inactive` otherwise. Marker and blank lines are written back as they
//! are; every other line is switched on in `Active`, switched off in
//! `Inactive` and left alone in `Ignore`.

use vstd::prelude::*;
use crate::lines::{chars_of, copy_range, line_bounds, lines_of, render, render_lines, string_from_chars};
use crate::marker::{
    activate, activated, deactivate, deactivated, marker_name, marker_span, Dialect,
};
use crate::utils::{Config, EnvContents};

verus! {

/// Where the line scan stands.
#[derive(Clone, Copy, PartialEq, Eq, Debug, Structural)]
pub enum ParseStatus {
    /// In a section of the selected name.
    Active,
    /// In a section of another name.
    Inactive,
    /// Outside any section.
    Ignore,
}

/// The state after `line`, read in state `status`.
pub open spec fn next_status(
    status: ParseStatus,
    line: Seq<char>,
    name: Seq<char>,
    d: Dialect,
) -> ParseStatus {
    if line.len() == 0 {
        ParseStatus::Ignore
    } else {
        match marker_name(line, d) {
            Some(n) => if n == name {
                ParseStatus::Active
            } else {
                ParseStatus::Inactive
            },
            None => status,
        }
    }
}

/// What is written for `line`, read in state `status`.
pub open spec fn emitted(status: ParseStatus, line: Seq<char>, name: Seq<char>, d: Dialect) -> Seq<
    char,
> {
    if line.len() == 0 || marker_name(line, d) is Some {
        line
    } else {
        match status {
            ParseStatus::Active => activated(line, d),
            ParseStatus::Inactive => deactivated(line),
            ParseStatus::Ignore => line,
        }
    }
}

/// The state in which line `i` of `ls` is read.
pub open spec fn status_before(ls: Seq<Seq<char>>, i: int, name: Seq<char>, d: Dialect) -> ParseStatus
    decreases i,
{
    if i <= 0 {
        ParseStatus::Ignore
    } else {
        next_status(status_before(ls, i - 1, name, d), ls[i - 1], name, d)
    }
}

/// The lines of the result, one for each line of `ls`.
pub open spec fn rewritten(ls: Seq<Seq<char>>, name: Seq<char>, d: Dialect) -> Seq<Seq<char>> {
    Seq::new(ls.len(), |i: int| emitted(status_before(ls, i, name, d), ls[i], name, d))
}

/// Some marker line among `ls` declares `name`.
pub open spec fn has_section(ls: Seq<Seq<char>>, name: Seq<char>, d: Dialect) -> bool {
    exists|j: int| 0 <= j < ls.len() && marker_name(ls[j], d) == Some(name)
}

/// The names that the marker lines among `ls` declare.
pub open spec fn section_names(ls: Seq<Seq<char>>, d: Dialect) -> Set<Seq<char>> {
    Set::new(|n: Seq<char>| has_section(ls, n, d))
}

/// The message of the error given when no marker declares `name`.
pub open spec fn not_found_message(name: Seq<char>) -> Seq<char> {
    "keyword \""@ + name + "\" was not found in .env file"@
}

/// What rewriting `text` for the selection `name` gives: the new text, or
/// the not-found message.
pub open spec fn rewrite_result(text: Seq<char>, name: Seq<char>, d: Dialect) -> Result<
    Seq<char>,
    Seq<char>,
> {
    let ls = lines_of(text);
    if has_section(ls, name, d) {
        Ok(render(rewritten(ls, name, d)))
    } else {
        Err(not_found_message(name))
    }
}

/// Whether positions `a` to `b` of `v` hold exactly `name`.
fn span_equals(v: &Vec<char>, a: usize, b: usize, name: &Vec<char>) -> (r: bool)
    requires
        a <= b <= v@.len(),
    ensures
        r == (v@.subrange(a as int, b as int) == name@),
{
    if b - a != name.len() {
        return false;
    }
    let mut i: usize = 0;
    while i < name.len()
        invariant
            a <= b <= v@.len(),
            b - a == name@.len(),
            i <= name@.len(),
            forall|j: int| 0 <= j < i ==> v@[a + j] == name@[j],
        decreases name@.len() - i,
    {
        if v[a + i] != name[i] {
            proof {
                assert(v@.subrange(a as int, b as int)[i as int] != name@[i as int]);
            }
            return false;
        }
        i = i + 1;
    }
    proof {
        assert(v@.subrange(a as int, b as int) =~= name@);
    }
    true
}

/// Whether `line` is a marker line that declares `name`.
fn declares(line: &Vec<char>, name: &Vec<char>, d: Dialect) -> (r: bool)
    ensures
        r == (marker_name(line@, d) == Some(name@)),
{
    match marker_span(line, d) {
        Some((a, b)) => span_equals(line, a, b, name),
        None => false,
    }
}

/// One step of the machine: the next state, and what is written for `line`.
pub fn step(status: ParseStatus, line: &Vec<char>, name: &Vec<char>, d: Dialect) -> (r: (
    ParseStatus,
    Vec<char>,
))
    ensures
        r.0 == next_status(status, line@, name@, d),
        r.1@ == emitted(status, line@, name@, d),
{
    proof {
        assert(line@.subrange(0, line@.len() as int) =~= line@);
    }
    if line.len() == 0 {
        return (ParseStatus::Ignore, copy_range(line, 0, 0));
    }
    match marker_span(line, d) {
        Some((a, b)) => {
            let next = if span_equals(line, a, b, name) {
                ParseStatus::Active
            } else {
                ParseStatus::Inactive
            };
            (next, copy_range(line, 0, line.len()))
        },
        None => {
            let out = match status {
                ParseStatus::Active => activate(line, d),
                ParseStatus::Inactive => deactivate(line),
                ParseStatus::Ignore => copy_range(line, 0, line.len()),
            };
            (status, out)
        },
    }
}

/// The message of the error given when no marker declares `name`.
fn not_found(name: &str) -> (r: String)
    ensures
        r@ == not_found_message(name@),
{
    let mut m = "keyword \"".to_owned();
    m.append(name);
    m.append("\" was not found in .env file");
    m
}

/// Rewrites `env` for the selection in `config`, in dialect `d`.
pub fn parse_env_with(env: &EnvContents, config: &Config, d: Dialect) -> (r: Result<
    EnvContents,
    String,
>)
    ensures
        match rewrite_result(env.contents@, config.keyword@, d) {
            Ok(t) => r matches Ok(e) && e.contents@ == t,
            Err(m) => r matches Err(msg) && msg@ == m,
        },
{
    let text = chars_of(env.contents.as_str());
    let name = chars_of(config.keyword.as_str());
    let bounds = line_bounds(&text);
    let ghost ls = lines_of(text@);
    let ghost want = rewritten(ls, name@, d);
    let mut status = ParseStatus::Ignore;
    let mut found = false;
    let mut out: Vec<Vec<char>> = Vec::new();
    let mut i: usize = 0;
    while i < bounds.len()
        invariant
            bounds@.len() == ls.len(),
            forall|k: int| 0 <= k < bounds@.len() ==> bounds@[k].0 <= #[trigger] bounds@[k].1 <= text@.len(),
            forall|k: int|
                0 <= k < bounds@.len() ==> #[trigger] text@.subrange(bounds@[k].0 as int, bounds@[k].1 as int)
                    == ls[k],
            i <= ls.len(),
            want == rewritten(ls, name@, d),
            status == status_before(ls, i as int, name@, d),
            found <==> exists|j: int| 0 <= j < i && marker_name(ls[j], d) == Some(name@),
            out@.len() == i,
            forall|k: int| 0 <= k < i ==> (#[trigger] out@[k])@ == want[k],
        decreases ls.len() - i,
    {
        let (start, end) = bounds[i];
        let line = copy_range(&text, start, end);
        proof {
            assert(text@.subrange(bounds@[i as int].0 as int, bounds@[i as int].1 as int) == ls[i as int]);
        }
        if declares(&line, &name, d) {
            found = true;
        }
        let (next, written) = step(status, &line, &name, d);
        out.push(written);
        status = next;
        i = i + 1;
    }
    if !found {
        return Err(not_found(config.keyword.as_str()));
    }
    proof {
        assert(out@.map_values(|l: Vec<char>| l@) =~= want);
    }
    let rendered = render_lines(&out);
    Ok(EnvContents { contents: string_from_chars(&rendered) })
}

/// Rewrites `env` for the selection in `config`, in the strict dialect.
pub fn parse_env(env: &EnvContents, config: &Config) -> (r: Result<EnvContents, String>)
    ensures
        match rewrite_result(env.contents@, config.keyword@, Dialect::Strict) {
            Ok(t) => r matches Ok(e) && e.contents@ == t,
            Err(m) => r matches Err(msg) && msg@ == m,
        },
{
    parse_env_with(env, config, Dialect::Strict)
}

/// The name that `line` declares, if it is a marker line of dialect `d`.
pub fn resolve_keyword_with(line: &str, d: Dialect) -> (r: Option<&str>)
    ensures
        match marker_name(line@, d) {
            Some(n) => r matches Some(k) && k@ == n,
            None => r is None,
        },
{
    let chars = chars_of(line);
    match marker_span(&chars, d) {
        Some((a, b)) => Some(line.substring_char(a, b)),
        None => None,
    }
}

/// The name that `line` declares, if it is a marker line of the strict
/// dialect.
pub fn resolve_keyword(line: &str) -> (r: Option<&str>)
    ensures
        match marker_name(line@, Dialect::Strict) {
            Some(n) => r matches Some(k) && k@ == n,
            None => r is None,
        },
{
    resolve_keyword_with(line, Dialect::Strict)
}

/// Whether one of `names` is `n`.
fn contains_name(names: &Vec<Vec<char>>, n: &Vec<char>) -> (r: bool)
    ensures
        r == exists|k: int| 0 <= k < names@.len() && (#[trigger] names@[k])@ == n@,
{
    let mut i: usize = 0;
    while i < names.len()
        invariant
            i <= names@.len(),
            forall|k: int| 0 <= k < i ==> (#[trigger] names@[k])@ != n@,
        decreases names@.len() - i,
    {
        let v = &names[i];
        if span_equals(v, 0, v.len(), n) {
            proof {
                assert(names@[i as int]@.subrange(0, names@[i as int]@.len() as int) =~= names@[i as int]@);
            }
            return true;
        }
        proof {
            assert(names@[i as int]@.subrange(0, names@[i as int]@.len() as int) =~= names@[i as int]@);
        }
        i = i + 1;
    }
    false
}

/// Some marker line among the first `i` of `ls` declares `n`.
#[verifier::opaque]
pub open spec fn declared_in(ls: Seq<Seq<char>>, i: int, n: Seq<char>, d: Dialect) -> bool {
    exists|j: int| 0 <= j < i && marker_name(ls[j], d) == Some(n)
}

/// `n` is one of `ns`.
#[verifier::opaque]
pub open spec fn listed(ns: Seq<Seq<char>>, n: Seq<char>) -> bool {
    exists|k: int| 0 <= k < ns.len() && ns[k] == n
}

proof fn lemma_declared_step(ls: Seq<Seq<char>>, i: int, n: Seq<char>, d: Dialect)
    requires
        0 <= i < ls.len(),
    ensures
        declared_in(ls, i + 1, n, d) <==> (declared_in(ls, i, n, d) || marker_name(ls[i], d) == Some(n)),
{
    reveal(declared_in);
    if declared_in(ls, i + 1, n, d) && marker_name(ls[i], d) != Some(n) {
        let j = choose|j: int| 0 <= j < i + 1 && marker_name(ls[j], d) == Some(n);
        assert(j < i);
    }
}

/// The names that the strict marker lines of `env` declare, each once, in
/// the order of their first marker.
pub fn list_available_keywords(env: &EnvContents) -> (r: Vec<&str>)
    ensures
        forall|i: int, j: int| 0 <= i < j < r@.len() ==> r@[i]@ != r@[j]@,
        forall|n: Seq<char>|
            (exists|i: int| 0 <= i < r@.len() && (#[trigger] r@[i])@ == n) <==> #[trigger] has_section(
                lines_of(env.contents@),
                n,
                Dialect::Strict,
            ),
{
    let d = Dialect::Strict;
    let s = env.contents.as_str();
    let text = chars_of(s);
    let bounds = line_bounds(&text);
    let ghost ls = lines_of(text@);
    let mut names: Vec<Vec<char>> = Vec::new();
    let mut r: Vec<&str> = Vec::new();
    let ghost mut rv: Seq<Seq<char>> = Seq::empty();
    let mut i: usize = 0;
    proof {
        reveal(declared_in);
    }
    while i < bounds.len()
        invariant
            text@ == s@,
            bounds@.len() == ls.len(),
            forall|k: int| 0 <= k < bounds@.len() ==> bounds@[k].0 <= #[trigger] bounds@[k].1 <= text@.len(),
            forall|k: int|
                0 <= k < bounds@.len() ==> #[trigger] text@.subrange(bounds@[k].0 as int, bounds@[k].1 as int)
                    == ls[k],
            i <= ls.len(),
            names@.len() == r@.len(),
            rv.len() == r@.len(),
            forall|k: int| 0 <= k < r@.len() ==> (#[trigger] r@[k])@ == rv[k],
            forall|k: int| 0 <= k < r@.len() ==> (#[trigger] names@[k])@ == rv[k],
            forall|a: int, b: int| 0 <= a < b < rv.len() ==> rv[a] != rv[b],
            forall|k: int| 0 <= k < rv.len() ==> declared_in(ls, i as int, #[trigger] rv[k], d),
            forall|n: Seq<char>| #[trigger] declared_in(ls, i as int, n, d) ==> listed(rv, n),
        decreases ls.len() - i,
    {
        let (start, end) = bounds[i];
        let line = copy_range(&text, start, end);
        proof {
            assert(text@.subrange(bounds@[i as int].0 as int, bounds@[i as int].1 as int) == ls[i as int]);
        }
        let ghost rv0 = rv;
        match marker_span(&line, d) {
            Some((a, b)) => {
                let name = copy_range(&line, a, b);
                if !contains_name(&names, &name) {
                    proof {
                        assert(line@.subrange(a as int, b as int) =~= text@.subrange(start + a, start + b));
                        assert forall|k: int| 0 <= k < rv0.len() implies rv0[k] != name@ by {
                            assert((#[trigger] names@[k])@ == rv0[k]);
                        }
                    }
                    r.push(s.substring_char(start + a, start + b));
                    names.push(name);
                    proof {
                        rv = rv.push(name@);
                    }
                } else {
                    proof {
                        reveal(listed);
                        let k = choose|k: int| 0 <= k < names@.len() && (#[trigger] names@[k])@ == name@;
                        assert(rv[k] == name@);
                    }
                }
                proof {
                    reveal(listed);
                    assert(rv[rv.len() - 1] == name@ || listed(rv, name@));
                }
            },
            None => {},
        }
        proof {
            let nm = marker_name(ls[i as int], d);
            assert forall|k: int| 0 <= k < rv.len() implies declared_in(ls, i + 1, #[trigger] rv[k], d) by {
                lemma_declared_step(ls, i as int, rv[k], d);
            }
            assert forall|n: Seq<char>| #[trigger] declared_in(ls, i + 1, n, d) implies listed(rv, n) by {
                lemma_declared_step(ls, i as int, n, d);
                reveal(listed);
                if declared_in(ls, i as int, n, d) {
                    assert(listed(rv0, n));
                    let k = choose|k: int| 0 <= k < rv0.len() && rv0[k] == n;
                    assert(rv[k] == n);
                } else {
                    assert(nm == Some(n));
                }
            }
        }
        i = i + 1;
    }
    proof {
        reveal(listed);
        reveal(declared_in);
        assert forall|n: Seq<char>|
            (exists|i: int| 0 <= i < r@.len() && (#[trigger] r@[i])@ == n) <==> #[trigger] has_section(
                ls,
                n,
                d,
            ) by {
            if has_section(ls, n, d) {
                assert(declared_in(ls, ls.len() as int, n, d));
                let k = choose|k: int| 0 <= k < rv.len() && rv[k] == n;
                assert(r@[k]@ == n);
            }
            if exists|i: int| 0 <= i < r@.len() && (#[trigger] r@[i])@ == n {
                let k = choose|i: int| 0 <= i < r@.len() && (#[trigger] r@[i])@ == n;
                assert(declared_in(ls, ls.len() as int, rv[k], d));
            }
        }
    }
    r
}

/// A line as it reads in a selected section, in dialect `d`.
pub fn parse_as_active(line: &str, d: Dialect) -> (r: String)
    ensures
        r@ == activated(line@, d),
{
    let chars = chars_of(line);
    string_from_chars(&activate(&chars, d))
}

/// A line as it reads in a section that is not selected.
pub fn parse_as_inactive(line: &str) -> (r: String)
    ensures
        r@ == deactivated(line@),
{
    let chars = chars_of(line);
    string_from_chars(&deactivate(&chars))
}

} // verus!
