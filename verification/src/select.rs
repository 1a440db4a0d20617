//! The selections the commands make: which packages to list, search, clean or report,
//! and in what order.

use vstd::prelude::*;
use crate::cache::models_of;
use crate::graph::contains_name;
use crate::models::{Package, PackageModel, PackageStatus, UnusedPackage};
use crate::strmap::views_of;
use crate::text::{chars_of, contains_spec, contains_str, lowercase, owned, push_str, str_eq, to_lowercase, trim, trim_spec};
use crate::tracker::{names_of, unused_models};
use crate::models::UnusedModel;

verus! {

broadcast use vstd::string::group_string_axioms;

/// Whether `a` comes strictly before `b` in the order of `str` (by characters).
pub open spec fn lex_lt(a: Seq<char>, b: Seq<char>) -> bool
    decreases a.len(),
{
    if a.len() == 0 {
        b.len() > 0
    } else if b.len() == 0 {
        false
    } else if a[0] != b[0] {
        (a[0] as u32) < (b[0] as u32)
    } else {
        lex_lt(a.drop_first(), b.drop_first())
    }
}

/// Whether `a` comes strictly before `b` in the order of `str`.
pub fn str_lt(a: &str, b: &str) -> (r: bool)
    ensures
        r == lex_lt(a@, b@),
{
    let x = chars_of(a);
    let y = chars_of(b);
    let mut i: usize = 0;
    assert(x@.skip(0) =~= x@);
    assert(y@.skip(0) =~= y@);
    while i < x.len() && i < y.len() && x[i] == y[i]
        invariant
            i <= x@.len(),
            i <= y@.len(),
            lex_lt(x@, y@) == lex_lt(x@.skip(i as int), y@.skip(i as int)),
        decreases x@.len() - i,
    {
        assert(x@.skip(i as int).drop_first() =~= x@.skip(i + 1));
        assert(y@.skip(i as int).drop_first() =~= y@.skip(i + 1));
        assert(x@.skip(i as int)[0] == x@[i as int]);
        assert(y@.skip(i as int)[0] == y@[i as int]);
        i = i + 1;
    }
    if i < x.len() && i < y.len() {
        assert(x@.skip(i as int)[0] == x@[i as int]);
        assert(y@.skip(i as int)[0] == y@[i as int]);
        (x[i] as u32) < (y[i] as u32)
    } else {
        i == x.len() && i < y.len()
    }
}

/// `s` (sorted by name) with `x` placed after the last package whose name does not come
/// after its own.
pub open spec fn insert_by_name(s: Seq<PackageModel>, x: PackageModel) -> Seq<PackageModel>
    decreases s.len(),
{
    if s.len() == 0 || !lex_lt(x.name, s.last().name) {
        s.push(x)
    } else {
        insert_by_name(s.drop_last(), x).push(s.last())
    }
}

/// `s` sorted by name, packages of equal names in their own order (a stable sort).
pub open spec fn sort_by_name(s: Seq<PackageModel>) -> Seq<PackageModel>
    decreases s.len(),
{
    if s.len() == 0 {
        s
    } else {
        insert_by_name(sort_by_name(s.drop_last()), s.last())
    }
}

/// Inserting after the last package whose name does not come after is inserting at `j`.
proof fn lemma_insert_by_name_at(s: Seq<PackageModel>, x: PackageModel, j: int)
    requires
        0 <= j <= s.len(),
        forall|t: int| j <= t < s.len() ==> lex_lt(x.name, #[trigger] s[t].name),
        j == 0 || !lex_lt(x.name, s[j - 1].name),
    ensures
        insert_by_name(s, x) == s.insert(j, x),
    decreases s.len(),
{
    if s.len() == j {
        assert(s.insert(j, x) =~= s.push(x));
    } else {
        assert(lex_lt(x.name, s.last().name));
        let p = s.drop_last();
        assert forall|t: int| j <= t < p.len() implies lex_lt(x.name, #[trigger] p[t].name) by {
            assert(p[t] == s[t]);
        }
        if j > 0 {
            assert(p[j - 1] == s[j - 1]);
        }
        lemma_insert_by_name_at(p, x, j);
        assert(p.insert(j, x).push(s.last()) =~= s.insert(j, x));
    }
}

/// The packages sorted by name, ties in their own order.
pub fn sorted_by_name(ps: Vec<Package>) -> (r: Vec<Package>)
    ensures
        models_of(r@) == sort_by_name(models_of(ps@)),
{
    let ghost m = models_of(ps@);
    let mut r: Vec<Package> = Vec::new();
    let mut i: usize = 0;
    while i < ps.len()
        invariant
            i <= ps@.len(),
            m == models_of(ps@),
            models_of(r@) == sort_by_name(m.take(i as int)),
        decreases ps@.len() - i,
    {
        let x = &ps[i];
        let mut j = r.len();
        while j > 0 && str_lt(x.name.as_str(), r[j - 1].name.as_str())
            invariant
                j <= r@.len(),
                forall|t: int| j <= t < r@.len() ==> lex_lt(x.name@, #[trigger] models_of(r@)[t].name),
            decreases j,
        {
            j = j - 1;
        }
        proof {
            lemma_insert_by_name_at(models_of(r@), x@, j as int);
            assert(m.take(i + 1).drop_last() =~= m.take(i as int));
            assert(m.take(i + 1).last() == x@);
        }
        let ghost before = models_of(r@);
        r.insert(j, x.clone());
        assert(models_of(r@) =~= before.insert(j as int, x@));
        i = i + 1;
    }
    assert(m.take(m.len() as int) =~= m);
    r
}

/// Whether a package passes the filters of the list command: from the source named
/// `source` (ignoring case), of at least `min_bytes` bytes, and among `used`.
pub open spec fn list_keeps(
    p: PackageModel,
    source: Option<Seq<char>>,
    min_bytes: Option<nat>,
    used: Option<Seq<Seq<char>>>,
) -> bool {
    &&& (source matches Some(s) ==> lowercase(p.source.name()) == lowercase(s))
    &&& (min_bytes matches Some(b) ==> (p.size matches Some(z) && z >= b))
    &&& (used matches Some(u) ==> u.contains(p.name))
}

/// The packages of `ps` that pass the filters of the list command, in order.
pub open spec fn list_filter(
    ps: Seq<PackageModel>,
    source: Option<Seq<char>>,
    min_bytes: Option<nat>,
    used: Option<Seq<Seq<char>>>,
) -> Seq<PackageModel>
    decreases ps.len(),
{
    if ps.len() == 0 {
        Seq::empty()
    } else if list_keeps(ps.last(), source, min_bytes, used) {
        list_filter(ps.drop_last(), source, min_bytes, used).push(ps.last())
    } else {
        list_filter(ps.drop_last(), source, min_bytes, used)
    }
}

/// The number of bytes in `mb` mebibytes.
pub open spec fn mib(mb: u64) -> nat {
    mb as nat * 1024 * 1024
}

/// Whether a package comes from the source named `source`, ignoring case.
fn from_source(p: &Package, source: &str) -> (b: bool)
    ensures
        b == (lowercase(p.source.name()) == lowercase(source@)),
{
    let name = p.source.to_string();
    let a = to_lowercase(name.as_str());
    let b = to_lowercase(source);
    str_eq(a.as_str(), b.as_str())
}

/// The packages the list command shows: those from the source named `source` (ignoring
/// case), of at least `min_size` MiB, and among `used` (when each is given), sorted by
/// name.
pub fn list_selection(
    packages: &Vec<Package>,
    source: Option<&str>,
    min_size: Option<u64>,
    used: Option<&Vec<String>>,
) -> (r: Vec<Package>)
    requires
        min_size matches Some(mb) ==> mib(mb) <= u64::MAX,
    ensures
        models_of(r@) == sort_by_name(
            list_filter(
                models_of(packages@),
                match source {
                    Some(s) => Some(s@),
                    None => None,
                },
                match min_size {
                    Some(mb) => Some(mib(mb)),
                    None => None,
                },
                match used {
                    Some(u) => Some(views_of(u@)),
                    None => None,
                },
            ),
        ),
{
    let ghost m = models_of(packages@);
    let ghost sv = match source {
        Some(s) => Some(s@),
        None => None::<Seq<char>>,
    };
    let ghost bv = match min_size {
        Some(mb) => Some(mib(mb)),
        None => None::<nat>,
    };
    let ghost uv = match used {
        Some(u) => Some(views_of(u@)),
        None => None::<Seq<Seq<char>>>,
    };
    let min_bytes: Option<u64> = match min_size {
        Some(mb) => Some(mb * 1024 * 1024),
        None => None,
    };
    let mut kept: Vec<Package> = Vec::new();
    let mut i: usize = 0;
    while i < packages.len()
        invariant
            i <= packages@.len(),
            m == models_of(packages@),
            sv == match source {
                Some(s) => Some(s@),
                None => None::<Seq<char>>,
            },
            uv == match used {
                Some(u) => Some(views_of(u@)),
                None => None::<Seq<Seq<char>>>,
            },
            match min_bytes {
                Some(b) => bv == Some(b as nat),
                None => bv is None,
            },
            models_of(kept@) == list_filter(m.take(i as int), sv, bv, uv),
        decreases packages@.len() - i,
    {
        let p = &packages[i];
        assert(m.take(i + 1).drop_last() =~= m.take(i as int));
        assert(m.take(i + 1).last() == p@);
        let source_ok = match source {
            Some(s) => from_source(p, s),
            None => true,
        };
        let size_ok = match min_bytes {
            Some(b) => match p.size {
                Some(z) => z >= b,
                None => false,
            },
            None => true,
        };
        let used_ok = match used {
            Some(u) => contains_name(u, p.name.as_str()),
            None => true,
        };
        assert((source_ok && size_ok && used_ok) == list_keeps(p@, sv, bv, uv));
        if source_ok && size_ok && used_ok {
            let ghost before = models_of(kept@);
            kept.push(p.clone());
            assert(models_of(kept@) =~= before.push(p@));
        }
        i = i + 1;
    }
    assert(m.take(m.len() as int) =~= m);
    sorted_by_name(kept)
}

/// The unused packages of at least `min_bytes` bytes (all of them when no minimum is
/// given), in order.
pub open spec fn at_least(us: Seq<UnusedModel>, min_bytes: Option<nat>) -> Seq<UnusedModel>
    decreases us.len(),
{
    if us.len() == 0 {
        Seq::empty()
    } else if min_bytes matches Some(b) && !(us.last().size matches Some(z) && z >= b) {
        at_least(us.drop_last(), min_bytes)
    } else {
        at_least(us.drop_last(), min_bytes).push(us.last())
    }
}

/// The unused packages of at least `min_size` MiB (all of them when no minimum is given).
pub fn filter_min_size(unused: Vec<UnusedPackage>, min_size: Option<u64>) -> (r: Vec<UnusedPackage>)
    requires
        min_size matches Some(mb) ==> mib(mb) <= u64::MAX,
    ensures
        unused_models(r@) == at_least(
            unused_models(unused@),
            match min_size {
                Some(mb) => Some(mib(mb)),
                None => None,
            },
        ),
{
    let ghost m = unused_models(unused@);
    let ghost bv = match min_size {
        Some(mb) => Some(mib(mb)),
        None => None::<nat>,
    };
    let min_bytes: Option<u64> = match min_size {
        Some(mb) => Some(mb * 1024 * 1024),
        None => None,
    };
    let mut kept: Vec<UnusedPackage> = Vec::new();
    let mut i: usize = 0;
    while i < unused.len()
        invariant
            i <= unused@.len(),
            m == unused_models(unused@),
            match min_bytes {
                Some(b) => bv == Some(b as nat),
                None => bv is None,
            },
            unused_models(kept@) == at_least(m.take(i as int), bv),
        decreases unused@.len() - i,
    {
        let u = &unused[i];
        assert(m.take(i + 1).drop_last() =~= m.take(i as int));
        assert(m.take(i + 1).last() == u@);
        let keep = match min_bytes {
            Some(b) => match u.size {
                Some(z) => z >= b,
                None => false,
            },
            None => true,
        };
        if keep {
            let ghost before = unused_models(kept@);
            kept.push(u.clone());
            assert(unused_models(kept@) =~= before.push(u@));
        }
        i = i + 1;
    }
    assert(m.take(m.len() as int) =~= m);
    kept
}

/// The packages of `ps` whose lower-cased name holds the lower-cased `query`, from the
/// source named `source` (ignoring case) when given, in order.
pub open spec fn search_filter(ps: Seq<PackageModel>, query: Seq<char>, source: Option<Seq<char>>) -> Seq<
    PackageModel,
>
    decreases ps.len(),
{
    if ps.len() == 0 {
        Seq::empty()
    } else {
        let r = search_filter(ps.drop_last(), query, source);
        let p = ps.last();
        if (source matches Some(s) ==> lowercase(p.source.name()) == lowercase(s)) && contains_spec(
            lowercase(p.name),
            lowercase(query),
        ) {
            r.push(p)
        } else {
            r
        }
    }
}

/// The packages whose name holds `query` (ignoring case), from the source named
/// `source` when given.
pub fn search_packages(packages: &Vec<Package>, query: &str, source: Option<&str>) -> (r: Vec<Package>)
    ensures
        models_of(r@) == search_filter(
            models_of(packages@),
            query@,
            match source {
                Some(s) => Some(s@),
                None => None,
            },
        ),
{
    let ghost m = models_of(packages@);
    let ghost sv = match source {
        Some(s) => Some(s@),
        None => None::<Seq<char>>,
    };
    let q = to_lowercase(query);
    let qv = chars_of(q.as_str());
    let mut found: Vec<Package> = Vec::new();
    let mut i: usize = 0;
    while i < packages.len()
        invariant
            i <= packages@.len(),
            m == models_of(packages@),
            sv == match source {
                Some(s) => Some(s@),
                None => None::<Seq<char>>,
            },
            qv@ == lowercase(query@),
            models_of(found@) == search_filter(m.take(i as int), query@, sv),
        decreases packages@.len() - i,
    {
        let p = &packages[i];
        assert(m.take(i + 1).drop_last() =~= m.take(i as int));
        assert(m.take(i + 1).last() == p@);
        let source_ok = match source {
            Some(s) => from_source(p, s),
            None => true,
        };
        let name = to_lowercase(p.name.as_str());
        let nv = chars_of(name.as_str());
        if source_ok && contains_str(&nv, &qv) {
            let ghost before = models_of(found@);
            found.push(p.clone());
            assert(models_of(found@) =~= before.push(p@));
        }
        i = i + 1;
    }
    assert(m.take(m.len() as int) =~= m);
    found
}

/// The unused packages marked as dependencies, in order.
pub open spec fn dependency_marked(us: Seq<UnusedModel>) -> Seq<UnusedModel>
    decreases us.len(),
{
    if us.len() == 0 {
        Seq::empty()
    } else if us.last().status == PackageStatus::Dependency {
        dependency_marked(us.drop_last()).push(us.last())
    } else {
        dependency_marked(us.drop_last())
    }
}

/// The unused packages the autoremove command removes: those marked as dependencies.
pub fn autoremove_selection(unused: Vec<UnusedPackage>) -> (r: Vec<UnusedPackage>)
    ensures
        unused_models(r@) == dependency_marked(unused_models(unused@)),
{
    let ghost m = unused_models(unused@);
    let mut kept: Vec<UnusedPackage> = Vec::new();
    let mut i: usize = 0;
    while i < unused.len()
        invariant
            i <= unused@.len(),
            m == unused_models(unused@),
            unused_models(kept@) == dependency_marked(m.take(i as int)),
        decreases unused@.len() - i,
    {
        let u = &unused[i];
        assert(m.take(i + 1).drop_last() =~= m.take(i as int));
        assert(m.take(i + 1).last() == u@);
        if u.status == PackageStatus::Dependency {
            let ghost before = unused_models(kept@);
            kept.push(u.clone());
            assert(unused_models(kept@) =~= before.push(u@));
        }
        i = i + 1;
    }
    assert(m.take(m.len() as int) =~= m);
    kept
}

/// The packages of `ps` whose names are not among `used`, in order.
pub open spec fn not_used(ps: Seq<PackageModel>, used: Seq<Seq<char>>) -> Seq<PackageModel>
    decreases ps.len(),
{
    if ps.len() == 0 {
        Seq::empty()
    } else if used.contains(ps.last().name) {
        not_used(ps.drop_last(), used)
    } else {
        not_used(ps.drop_last(), used).push(ps.last())
    }
}

/// The packages the monitor reports as unused: those not among `used`.
pub fn monitor_unused(packages: &Vec<Package>, used: &Vec<String>) -> (r: Vec<Package>)
    ensures
        models_of(r@) == not_used(models_of(packages@), views_of(used@)),
{
    let ghost m = models_of(packages@);
    let mut kept: Vec<Package> = Vec::new();
    let mut i: usize = 0;
    while i < packages.len()
        invariant
            i <= packages@.len(),
            m == models_of(packages@),
            models_of(kept@) == not_used(m.take(i as int), views_of(used@)),
        decreases packages@.len() - i,
    {
        let p = &packages[i];
        assert(m.take(i + 1).drop_last() =~= m.take(i as int));
        assert(m.take(i + 1).last() == p@);
        if !contains_name(used, p.name.as_str()) {
            let ghost before = models_of(kept@);
            kept.push(p.clone());
            assert(models_of(kept@) =~= before.push(p@));
        }
        i = i + 1;
    }
    assert(m.take(m.len() as int) =~= m);
    kept
}

/// The problems the verify command reports: for each package whose path does not
/// exist (`exists[i]` tells for the `i`-th), that it is missing from there.
pub open spec fn missing_issues(ps: Seq<PackageModel>, exists: Seq<bool>) -> Seq<Seq<char>>
    decreases ps.len(),
{
    if ps.len() == 0 || exists.len() < ps.len() {
        Seq::empty()
    } else {
        let r = missing_issues(ps.drop_last(), exists.take(ps.len() - 1));
        if exists[ps.len() - 1] {
            r
        } else {
            r.push("Package '"@ + ps.last().name + "' missing from "@ + ps.last().install_path)
        }
    }
}

/// The problems the verify command reports, given which paths exist.
pub fn verify_issues(packages: &Vec<Package>, exists: &Vec<bool>) -> (r: Vec<String>)
    requires
        exists@.len() == packages@.len(),
    ensures
        views_of(r@) == missing_issues(models_of(packages@), exists@),
{
    let ghost m = models_of(packages@);
    let mut issues: Vec<String> = Vec::new();
    let mut i: usize = 0;
    while i < packages.len()
        invariant
            i <= packages@.len(),
            exists@.len() == packages@.len(),
            m == models_of(packages@),
            views_of(issues@) == missing_issues(m.take(i as int), exists@.take(i as int)),
        decreases packages@.len() - i,
    {
        let p = &packages[i];
        assert(m.take(i + 1).drop_last() =~= m.take(i as int));
        assert(m.take(i + 1).last() == p@);
        assert(exists@.take(i + 1).take(i as int) =~= exists@.take(i as int));
        assert(exists@.take(i + 1)[i as int] == exists@[i as int]);
        if !exists[i] {
            let mut s = owned("Package '");
            push_str(&mut s, p.name.as_str());
            push_str(&mut s, "' missing from ");
            push_str(&mut s, p.install_path.as_str());
            let ghost before = views_of(issues@);
            issues.push(s);
            assert(views_of(issues@) =~= before.push(s@));
        }
        i = i + 1;
    }
    assert(m.take(m.len() as int) =~= m);
    assert(exists@.take(exists@.len() as int) =~= exists@);
    issues
}

/// Whether an answer to a yes/no prompt means yes: "y" or "yes", ignoring case and
/// surrounding white space.
pub fn is_yes(answer: &str) -> (b: bool)
    ensures
        b == (lowercase(trim_spec(answer@)) == "y"@ || lowercase(trim_spec(answer@)) == "yes"@),
{
    let t = trim(answer);
    let l = to_lowercase(t.as_str());
    str_eq(l.as_str(), "y") || str_eq(l.as_str(), "yes")
}

} // verus!
