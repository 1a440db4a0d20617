//! Reading the dependency lists out of what `pkg show` prints.
//!
//! The printout is a sequence of `Field: value` lines; a `Depends:` field lists
//! comma-separated dependencies, each possibly followed by a version constraint, and may
//! continue on following lines that begin with a space.

use vstd::prelude::*;
use crate::models::clone_strings;
use crate::strmap::{StrMap, views_of};
use crate::text::{
    chars_of, first_word, first_word_of, lines_of, lines_spec, split_on, split_spec,
    starts_with, starts_with_spec, string_of_range, trim, trim_spec,
};

verus! {

broadcast use vstd::string::group_string_axioms;

/// The first words of `pieces`, in order, empty ones left out.
pub open spec fn nonempty_words(pieces: Seq<Seq<char>>) -> Seq<Seq<char>>
    decreases pieces.len(),
{
    if pieces.len() == 0 {
        Seq::empty()
    } else {
        let r = nonempty_words(pieces.drop_last());
        let w = first_word(pieces.last());
        if w.len() > 0 {
            r.push(w)
        } else {
            r
        }
    }
}

/// The package names of a comma-separated dependency list: the first word of each item
/// (dropping any version constraint), empty items left out.
pub open spec fn dep_names(list: Seq<char>) -> Seq<Seq<char>> {
    nonempty_words(split_spec(list, ','))
}

/// The dependencies listed on a `Depends:` line: those after its first colon, up to a
/// second colon if there is one.
pub open spec fn depends_line_names(line: Seq<char>) -> Seq<Seq<char>> {
    let parts = split_spec(line, ':');
    if parts.len() > 1 {
        dep_names(parts[1])
    } else {
        Seq::empty()
    }
}

/// Appends the package names of the dependency list `list` to `out`.
pub fn push_dep_names(out: &mut Vec<String>, list: &str)
    ensures
        views_of(final(out)@) == views_of(old(out)@) + dep_names(list@),
{
    let pieces = split_on(list, ',');
    let ghost pv = views_of(pieces@);
    let mut i: usize = 0;
    assert(pv.take(0) =~= Seq::<Seq<char>>::empty());
    assert(views_of(out@) =~= views_of(old(out)@) + nonempty_words(pv.take(0)));
    while i < pieces.len()
        invariant
            i <= pieces@.len(),
            pv == views_of(pieces@),
            pv == split_spec(list@, ','),
            views_of(out@) == views_of(old(out)@) + nonempty_words(pv.take(i as int)),
        decreases pieces@.len() - i,
    {
        let w = first_word_of(pieces[i].as_str());
        let wv = chars_of(w.as_str());
        assert(pv.take(i + 1).drop_last() =~= pv.take(i as int));
        assert(pv.take(i + 1).last() == pieces@[i as int]@);
        if wv.len() > 0 {
            let ghost before = views_of(out@);
            out.push(w);
            assert(views_of(out@) =~= before.push(first_word(pieces@[i as int]@)));
            assert(views_of(out@) =~= views_of(old(out)@) + nonempty_words(pv.take(i + 1)));
        }
        i = i + 1;
    }
    assert(pv.take(pieces@.len() as int) =~= pv);
}

/// Appends the dependencies listed on a `Depends:` line to `out`.
pub fn push_depends_line(out: &mut Vec<String>, line: &str)
    ensures
        views_of(final(out)@) == views_of(old(out)@) + depends_line_names(line@),
{
    let parts = split_on(line, ':');
    if parts.len() > 1 {
        assert(parts@[1]@ == split_spec(line@, ':')[1]);
        push_dep_names(out, parts[1].as_str());
    } else {
        assert(views_of(out@) =~= views_of(out@) + Seq::<Seq<char>>::empty());
    }
}

/// What has been read of the printout for one package: the dependencies so far, whether
/// a `Depends:` field is being read, and whether reading has stopped.
pub open spec fn scan_show(lines: Seq<Seq<char>>) -> (Seq<Seq<char>>, bool, bool)
    decreases lines.len(),
{
    if lines.len() == 0 {
        (Seq::empty(), false, false)
    } else {
        let (deps, in_deps, stopped) = scan_show(lines.drop_last());
        let line = lines.last();
        if stopped {
            (deps, in_deps, stopped)
        } else if starts_with_spec(line, "Depends:"@) {
            (deps + depends_line_names(line), true, false)
        } else if in_deps && starts_with_spec(line, " "@) {
            (deps + dep_names(line), true, false)
        } else if in_deps {
            (deps, in_deps, true)
        } else {
            (deps, in_deps, stopped)
        }
    }
}

/// The dependencies that the printout of `pkg show` for one package lists: those of its
/// `Depends:` field and of the lines continuing it, reading up to the first line after
/// the field that does not begin with a space.
pub open spec fn show_dependencies(out: Seq<char>) -> Seq<Seq<char>> {
    scan_show(lines_spec(out)).0
}

/// The dependencies that the printout of `pkg show` for one package lists.
pub fn parse_dependencies(out: &str) -> (deps: Vec<String>)
    ensures
        views_of(deps@) == show_dependencies(out@),
{
    let lines = lines_of(out);
    let ghost lv = views_of(lines@);
    let mut deps: Vec<String> = Vec::new();
    let mut in_deps = false;
    let mut i: usize = 0;
    while i < lines.len()
        invariant
            i <= lines@.len(),
            lv == views_of(lines@),
            lv == lines_spec(out@),
            scan_show(lv.take(i as int)) == (views_of(deps@), in_deps, false),
        decreases lines@.len() - i,
    {
        let line = chars_of(lines[i].as_str());
        assert(lv.take(i + 1).drop_last() =~= lv.take(i as int));
        assert(lv.take(i + 1).last() == line@);
        if starts_with(&line, "Depends:") {
            in_deps = true;
            push_depends_line(&mut deps, lines[i].as_str());
        } else if in_deps && starts_with(&line, " ") {
            push_dep_names(&mut deps, lines[i].as_str());
        } else if in_deps {
            proof {
                assert(scan_show(lv.take(i + 1)) == (views_of(deps@), in_deps, true));
                assert forall|j: int| i + 1 <= j <= lv.len() implies #[trigger] scan_show(lv.take(j)).0 == views_of(deps@) by {
                    lemma_scan_show_stays(lv, i + 1, j);
                }
                assert(lv.take(lv.len() as int) =~= lv);
            }
            return deps;
        }
        i = i + 1;
    }
    assert(lv.take(lv.len() as int) =~= lv);
    deps
}

/// Once reading has stopped, later lines change nothing.
proof fn lemma_scan_show_stays(lv: Seq<Seq<char>>, i: int, j: int)
    requires
        0 <= i <= j <= lv.len(),
        scan_show(lv.take(i)).2,
    ensures
        scan_show(lv.take(j)) == scan_show(lv.take(i)),
    decreases j - i,
{
    if j > i {
        lemma_scan_show_stays(lv, i, j - 1);
        assert(lv.take(j).drop_last() =~= lv.take(j - 1));
    }
}

/// `s` with every leading copy of `p` removed (what `str::trim_start_matches` does with a
/// string pattern).
pub open spec fn strip_prefixes(s: Seq<char>, p: Seq<char>) -> Seq<char>
    decreases s.len(),
{
    if p.len() > 0 && starts_with_spec(s, p) {
        strip_prefixes(s.skip(p.len() as int), p)
    } else {
        s
    }
}

/// The name on a `Package:` line.
pub open spec fn package_line_name(line: Seq<char>) -> Seq<char> {
    trim_spec(strip_prefixes(line, "Package:"@))
}

/// The value of a `Field:` line: the line without its leading copies of `prefix`, trimmed.
pub fn field_value(line: &Vec<char>, prefix: &str) -> (v: String)
    ensures
        v@ == trim_spec(strip_prefixes(line@, prefix@)),
{
    let p = chars_of(prefix);
    let n = line.len();
    let mut a: usize = 0;
    assert(line@.skip(0) =~= line@);
    while a <= n && p.len() > 0 && p.len() <= n - a && starts_at(line, a, &p)
        invariant
            a <= n == line@.len(),
            p@ == prefix@,
            strip_prefixes(line@, p@) == strip_prefixes(line@.skip(a as int), p@),
        decreases n - a,
    {
        proof {
            assert(line@.skip(a as int).take(p@.len() as int) =~= p@);
            assert(line@.skip(a as int).skip(p@.len() as int) =~= line@.skip(a + p@.len()));
        }
        a = a + p.len();
    }
    assert(!(p@.len() > 0 && starts_with_spec(line@.skip(a as int), p@)));
    let rest = string_of_range(line, a, n);
    assert(line@.subrange(a as int, n as int) =~= line@.skip(a as int));
    trim(rest.as_str())
}

/// The name on a `Package:` line.
fn package_name_of(line: &Vec<char>) -> (name: String)
    ensures
        name@ == package_line_name(line@),
{
    field_value(line, "Package:")
}

/// Whether `p` occurs in `line` at position `a`.
fn starts_at(line: &Vec<char>, a: usize, p: &Vec<char>) -> (b: bool)
    requires
        a + p@.len() <= line@.len(),
    ensures
        b == (line@.skip(a as int).take(p@.len() as int) == p@),
{
    let mut k: usize = 0;
    while k < p.len()
        invariant
            k <= p@.len(),
            a + p@.len() <= line@.len(),
            forall|j: int| 0 <= j < k ==> line@[a + j] == p@[j],
            line@.len() == line.len(),
        decreases p@.len() - k,
    {
        if line[a + k] != p[k] {
            assert(line@.skip(a as int).take(p@.len() as int)[k as int] == line@[a + k]);
            return false;
        }
        k = k + 1;
    }
    assert(line@.skip(a as int).take(p@.len() as int) =~= p@);
    true
}

/// The dependency lists by package name, as sequences of names.
pub open spec fn deps_view(m: Map<Seq<char>, Vec<String>>) -> Map<Seq<char>, Seq<Seq<char>>> {
    Map::new(|k: Seq<char>| m.contains_key(k), |k: Seq<char>| views_of(m[k]@))
}

/// What has been read of a printout for several packages: the lists of the packages
/// finished so far, the package being read, its dependencies so far, and whether a
/// `Depends:` field is being read.
pub open spec fn scan_batch(lines: Seq<Seq<char>>) -> (
    Map<Seq<char>, Seq<Seq<char>>>,
    Option<Seq<char>>,
    Seq<Seq<char>>,
    bool,
)
    decreases lines.len(),
{
    if lines.len() == 0 {
        (Map::empty(), None, Seq::empty(), false)
    } else {
        let (res, cur, deps, in_deps) = scan_batch(lines.drop_last());
        let line = lines.last();
        if starts_with_spec(line, "Package:"@) {
            match cur {
                Some(n) => (res.insert(n, deps), Some(package_line_name(line)), Seq::empty(), false),
                None => (res, Some(package_line_name(line)), deps, false),
            }
        } else if starts_with_spec(line, "Depends:"@) {
            (res, cur, deps + depends_line_names(line), true)
        } else if in_deps && starts_with_spec(line, " "@) {
            (res, cur, deps + dep_names(line), true)
        } else if in_deps && line.len() > 0 {
            (res, cur, deps, false)
        } else {
            (res, cur, deps, in_deps)
        }
    }
}

/// The dependency lists, by package name, that a printout of `pkg show` for several
/// packages gives: each `Package:` line starts a package, and the `Depends:` fields
/// read up to the next one are its list (a name given twice keeps its last list).
pub open spec fn batch_dependencies(out: Seq<char>) -> Map<Seq<char>, Seq<Seq<char>>> {
    let (res, cur, deps, _) = scan_batch(lines_spec(out));
    match cur {
        Some(n) => res.insert(n, deps),
        None => res,
    }
}

/// The dependency lists, by package name, that a printout of `pkg show` for several
/// packages gives.
#[verifier::rlimit(30)]
pub fn parse_dependencies_batch(out: &str) -> (r: StrMap<Vec<String>>)
    ensures
        r.wf(),
        deps_view(r.map()) == batch_dependencies(out@),
{
    let lines = lines_of(out);
    let ghost lv = views_of(lines@);
    let mut results: StrMap<Vec<String>> = StrMap::new();
    let mut current: Option<String> = None;
    let mut deps: Vec<String> = Vec::new();
    let mut in_deps = false;
    let mut i: usize = 0;
    assert(deps_view(results.map()) =~= Map::<Seq<char>, Seq<Seq<char>>>::empty());
    while i < lines.len()
        invariant
            i <= lines@.len(),
            lv == views_of(lines@),
            lv == lines_spec(out@),
            results.wf(),
            scan_batch(lv.take(i as int)) == (
                deps_view(results.map()),
                match current {
                    Some(c) => Some(c@),
                    None => None::<Seq<char>>,
                },
                views_of(deps@),
                in_deps,
            ),
        decreases lines@.len() - i,
    {
        let line = chars_of(lines[i].as_str());
        assert(lv.take(i + 1).drop_last() =~= lv.take(i as int));
        assert(lv.take(i + 1).last() == line@);
        if starts_with(&line, "Package:") {
            let name = package_name_of(&line);
            match current {
                Some(c) => {
                    let ghost before = deps_view(results.map());
                    results.insert(c, clone_strings(&deps));
                    assert(deps_view(results.map()) =~= before.insert(c@, views_of(deps@)));
                    deps = Vec::new();
                    assert(views_of(deps@) =~= Seq::<Seq<char>>::empty());
                },
                None => {},
            }
            current = Some(name);
            in_deps = false;
        } else if starts_with(&line, "Depends:") {
            in_deps = true;
            push_depends_line(&mut deps, lines[i].as_str());
        } else if in_deps && starts_with(&line, " ") {
            push_dep_names(&mut deps, lines[i].as_str());
        } else if in_deps && line.len() > 0 {
            in_deps = false;
        }
        i = i + 1;
    }
    assert(lv.take(lv.len() as int) =~= lv);
    match current {
        Some(c) => {
            let ghost before = deps_view(results.map());
            results.insert(c, deps);
            assert(deps_view(results.map()) =~= before.insert(c@, views_of(deps@)));
        },
        None => {},
    }
    results
}

} // verus!
