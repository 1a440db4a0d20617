//! The tracker: the installed packages, what the activity log says of their use, what
//! they depend on, and the decisions taken from these (which packages are unused, which
//! are protected, the statistics).
//!
//! Reading the log, asking `pkg` and the clock are left to the caller, which hands in
//! what it read; where a decision needs dependencies that were never recorded, the
//! tracker names them so that the caller can ask for them and record them.

use vstd::prelude::*;
use crate::cache::{CacheManager, models_of};
use crate::config::Config;
use crate::graph::{
    DepLookup, DependencyClosure, contains_name, core_names, deps_of, dependency_closure, get_core_packages, is_core,
    is_core_package, lookup_dependencies, needed_unknown, reachable, resolved,
};
use crate::models::{
    DependencyCache, FileMapCache, Package, PackageEvent, PackageInfo, PackageModel, PackageSource,
    PackageStatus, UnusedModel, UnusedPackage, UsageCache, clone_opt_string, clone_strings, indexed,
    lemma_used_order, max_timestamp, opt_view, use_events, used_names, used_order,
};
use crate::text::{owned, push_str};
use crate::show::deps_view;
use crate::strmap::{StrMap, views_of};

verus! {

broadcast use vstd::string::group_string_axioms;

/// The positions of the events of `p` in `s`, in order.
pub open spec fn positions_of(s: Seq<PackageEvent>, p: Seq<char>) -> Seq<usize>
    decreases s.len(),
{
    if s.len() == 0 {
        Seq::empty()
    } else {
        let r = positions_of(s.drop_last(), p);
        if s.last().package@ == p {
            r.push((s.len() - 1) as usize)
        } else {
            r
        }
    }
}

/// The events of `p` in `s`, in order.
pub open spec fn events_of(s: Seq<PackageEvent>, p: Seq<char>) -> Seq<PackageEvent>
    decreases s.len(),
{
    if s.len() == 0 {
        Seq::empty()
    } else {
        let r = events_of(s.drop_last(), p);
        if s.last().package@ == p {
            r.push(s.last())
        } else {
            r
        }
    }
}

/// The latest timestamp of `s`, or 0 when none is later than 0.
pub open spec fn latest_timestamp(s: Seq<PackageEvent>) -> i64
    decreases s.len(),
{
    if s.len() == 0 {
        0
    } else {
        let m = latest_timestamp(s.drop_last());
        if s.last().timestamp > m {
            s.last().timestamp
        } else {
            m
        }
    }
}

/// The positions of the events of `p` lie within `s`.
proof fn lemma_positions_below(s: Seq<PackageEvent>, p: Seq<char>)
    requires
        s.len() <= usize::MAX,
    ensures
        forall|t: int| 0 <= t < positions_of(s, p).len() ==> (#[trigger] positions_of(s, p)[t] as int) < s.len(),
    decreases s.len(),
{
    if s.len() > 0 {
        let q = s.drop_last();
        lemma_positions_below(q, p);
        let r = positions_of(q, p);
        if s.last().package@ == p {
            assert forall|t: int| 0 <= t < positions_of(s, p).len() implies (#[trigger] positions_of(s, p)[t] as int)
                < s.len() by {
                if t < r.len() {
                    assert(positions_of(s, p)[t] == r[t]);
                }
            }
        }
    }
}

/// Picking positions below `m` out of `s` is picking them out of its first `m` events.
proof fn lemma_indexed_prefix(s: Seq<PackageEvent>, idx: Seq<usize>, m: int)
    requires
        0 <= m <= s.len(),
        forall|t: int| 0 <= t < idx.len() ==> (#[trigger] idx[t] as int) < m,
    ensures
        indexed(s, idx) == indexed(s.take(m), idx),
    decreases idx.len(),
{
    if idx.len() > 0 {
        lemma_indexed_prefix(s, idx.drop_last(), m);
        assert(idx.last() == idx[idx.len() - 1]);
    }
}

/// The events at the positions of `p` are the events of `p`.
pub proof fn lemma_indexed_positions(s: Seq<PackageEvent>, p: Seq<char>)
    requires
        s.len() <= usize::MAX,
    ensures
        indexed(s, positions_of(s, p)) == events_of(s, p),
    decreases s.len(),
{
    if s.len() > 0 {
        let q = s.drop_last();
        lemma_indexed_positions(q, p);
        lemma_positions_below(q, p);
        lemma_indexed_prefix(s, positions_of(q, p), q.len() as int);
        assert(s.take(q.len() as int) =~= q);
        if s.last().package@ == p {
            let ps = positions_of(q, p).push((s.len() - 1) as usize);
            assert(ps.drop_last() =~= positions_of(q, p));
        }
    }
}

/// A package without events has no positions.
proof fn lemma_positions_empty(s: Seq<PackageEvent>, p: Seq<char>)
    requires
        positions_of(s, p).len() == 0,
    ensures
        events_of(s, p).len() == 0,
    decreases s.len(),
{
    if s.len() > 0 {
        lemma_positions_empty(s.drop_last(), p);
    }
}

/// Whether `c` is the usage cache built from `events` at time `now`: it holds the events
/// in order, indexes each package by the positions of its events, and records the
/// number of events and the latest timestamp.
pub open spec fn usage_cache_of(c: UsageCache, events: Seq<PackageEvent>, now: i64) -> bool {
    &&& c.wf()
    &&& c.events@ == events
    &&& forall|p: Seq<char>| #[trigger] c.package_index.map().contains_key(p) <==> positions_of(events, p).len() > 0
    &&& forall|p: Seq<char>| #[trigger] c.package_index.map().contains_key(p) ==> c.package_index.map()[p]@
        == positions_of(events, p)
    &&& forall|p: Seq<char>| #[trigger] c.package_events(p) == events_of(events, p)
    &&& c.loaded_at == now
    &&& c.last_event_timestamp == latest_timestamp(events)
    &&& c.event_count == events.len()
}

/// A copy of a list of positions.
fn copy_positions(v: &Vec<usize>) -> (r: Vec<usize>)
    ensures
        r@ == v@,
{
    let mut r: Vec<usize> = Vec::new();
    let mut i: usize = 0;
    while i < v.len()
        invariant
            i <= v@.len(),
            r@ == v@.take(i as int),
        decreases v@.len() - i,
    {
        r.push(v[i]);
        i = i + 1;
        assert(r@ =~= v@.take(i as int));
    }
    assert(v@.take(v@.len() as int) =~= v@);
    r
}

/// The usage cache of the log events `events`, read at time `now`.
pub fn build_usage_cache(events: Vec<PackageEvent>, now: i64) -> (c: UsageCache)
    ensures
        usage_cache_of(c, events@, now),
{
    let mut index: StrMap<Vec<usize>> = StrMap::new();
    let mut last: i64 = 0;
    let mut i: usize = 0;
    while i < events.len()
        invariant
            i <= events@.len(),
            index.wf(),
            forall|p: Seq<char>| #[trigger] index.map().contains_key(p) <==> positions_of(events@.take(i as int), p).len() > 0,
            forall|p: Seq<char>| #[trigger] index.map().contains_key(p) ==> index.map()[p]@ == positions_of(
                events@.take(i as int),
                p,
            ),
            last == latest_timestamp(events@.take(i as int)),
        decreases events@.len() - i,
    {
        let e = &events[i];
        let ghost t0 = events@.take(i as int);
        let ghost t1 = events@.take(i + 1);
        assert(t1.drop_last() =~= t0);
        assert(t1.last() == *e);
        let mut pos: Vec<usize> = match index.get(e.package.as_str()) {
            Some(v) => copy_positions(v),
            None => Vec::new(),
        };
        pos.push(i);
        let ghost before = index.map();
        index.insert(e.package.clone(), pos);
        proof {
            assert forall|p: Seq<char>| #[trigger] index.map().contains_key(p) <==> positions_of(t1, p).len() > 0 by {
                if p != e.package@ {
                    assert(positions_of(t1, p) == positions_of(t0, p));
                }
            }
            assert forall|p: Seq<char>| #[trigger] index.map().contains_key(p) implies index.map()[p]@
                == positions_of(t1, p) by {
                if p == e.package@ {
                    if before.contains_key(p) {
                        assert(positions_of(t1, p) == positions_of(t0, p).push(i));
                    } else {
                        assert(positions_of(t0, p).len() == 0);
                        assert(positions_of(t1, p) =~= seq![i]);
                    }
                } else {
                    assert(positions_of(t1, p) == positions_of(t0, p));
                }
            }
        }
        if e.timestamp > last {
            last = e.timestamp;
        }
        i = i + 1;
    }
    assert(events@.take(events@.len() as int) =~= events@);
    let n = events.len();
    let c = UsageCache { events, package_index: index, loaded_at: now, last_event_timestamp: last, event_count: n };
    proof {
        assert forall|p: Seq<char>| #[trigger] c.package_events(p) == events_of(c.events@, p) by {
            lemma_indexed_positions(c.events@, p);
            if !c.package_index.map().contains_key(p) {
                lemma_positions_empty(c.events@, p);
                assert(events_of(c.events@, p) =~= Seq::<PackageEvent>::empty());
            }
        }
    }
    c
}

/// The names of packages, in order.
pub open spec fn names_of(ps: Seq<PackageModel>) -> Seq<Seq<char>> {
    ps.map_values(|p: PackageModel| p.name)
}

/// The dependencies listed for `name` in `dm` (none when it is not listed).
pub open spec fn listed_deps(dm: Map<Seq<char>, Vec<String>>, name: Seq<char>) -> Seq<Seq<char>> {
    if dm.contains_key(name) {
        views_of(dm[name]@)
    } else {
        Seq::empty()
    }
}

/// `name` once for each occurrence of `d` in `deps`.
pub open spec fn name_per_match(deps: Seq<Seq<char>>, d: Seq<char>, name: Seq<char>) -> Seq<Seq<char>>
    decreases deps.len(),
{
    if deps.len() == 0 {
        Seq::empty()
    } else {
        let r = name_per_match(deps.drop_last(), d, name);
        if deps.last() == d {
            r.push(name)
        } else {
            r
        }
    }
}

/// The packages of `ps` that list `d` as a dependency in `dm`, in order, a package
/// once for each time it lists `d`.
pub open spec fn dependents_in(ps: Seq<PackageModel>, dm: Map<Seq<char>, Vec<String>>, d: Seq<char>) -> Seq<
    Seq<char>,
>
    decreases ps.len(),
{
    if ps.len() == 0 {
        Seq::empty()
    } else {
        dependents_in(ps.drop_last(), dm, d) + name_per_match(listed_deps(dm, ps.last().name), d, ps.last().name)
    }
}

/// Whether `c` is the dependency cache built at time `now` for the packages `ps` from the
/// lists `dm`: each package has its listed dependencies (none when unlisted), and each
/// dependency the packages that list it.
pub open spec fn dependency_cache_of(
    c: DependencyCache,
    ps: Seq<PackageModel>,
    dm: Map<Seq<char>, Vec<String>>,
    now: i64,
) -> bool {
    &&& c.wf()
    &&& deps_view(c.direct_deps.map()) == Map::new(
        |k: Seq<char>| names_of(ps).contains(k),
        |k: Seq<char>| listed_deps(dm, k),
    )
    &&& forall|d: Seq<char>| #[trigger] c.reverse_deps.map().contains_key(d) <==> dependents_in(ps, dm, d).len() > 0
    &&& forall|d: Seq<char>| #[trigger] c.reverse_deps.map().contains_key(d) ==> views_of(
        c.reverse_deps.map()[d]@,
    ) == dependents_in(ps, dm, d)
    &&& c.built_at == now
    &&& c.package_count == ps.len()
    &&& c.max_depth == 0
}

/// The dependency cache of the installed packages `packages`, from the dependency lists
/// `deps_map` read at time `now`.
#[verifier::rlimit(40)]
pub fn build_dependency_cache(packages: &Vec<Package>, deps_map: &StrMap<Vec<String>>, now: i64) -> (c:
    DependencyCache)
    requires
        deps_map.wf(),
    ensures
        dependency_cache_of(c, models_of(packages@), deps_map.map(), now),
{
    let ghost ps = models_of(packages@);
    let ghost dm = deps_map.map();
    let mut direct: StrMap<Vec<String>> = StrMap::new();
    let mut reverse: StrMap<Vec<String>> = StrMap::new();
    let mut i: usize = 0;
    assert(deps_view(direct.map()) =~= Map::new(
        |k: Seq<char>| names_of(ps.take(0)).contains(k),
        |k: Seq<char>| listed_deps(dm, k),
    ));
    while i < packages.len()
        invariant
            i <= packages@.len(),
            ps == models_of(packages@),
            dm == deps_map.map(),
            deps_map.wf(),
            direct.wf(),
            reverse.wf(),
            deps_view(direct.map()) == Map::new(
                |k: Seq<char>| names_of(ps.take(i as int)).contains(k),
                |k: Seq<char>| listed_deps(dm, k),
            ),
            forall|d: Seq<char>| #[trigger] reverse.map().contains_key(d) <==> dependents_in(ps.take(i as int), dm, d).len() > 0,
            forall|d: Seq<char>| #[trigger] reverse.map().contains_key(d) ==> views_of(reverse.map()[d]@)
                == dependents_in(ps.take(i as int), dm, d),
        decreases packages@.len() - i,
    {
        let pkg = &packages[i];
        let ghost name = pkg.name@;
        let ghost p0 = ps.take(i as int);
        let ghost p1 = ps.take(i + 1);
        assert(p1.drop_last() =~= p0);
        assert(p1.last() == pkg@);
        assert(names_of(p1) =~= names_of(p0).push(name));
        let deps: Vec<String> = match deps_map.get(pkg.name.as_str()) {
            Some(d) => clone_strings(d),
            None => Vec::new(),
        };
        assert(views_of(deps@) == listed_deps(dm, name));
        let ghost dv = views_of(deps@);
        let ghost before_direct = deps_view(direct.map());
        direct.insert(pkg.name.clone(), clone_strings(&deps));
        proof {
            assert(deps_view(direct.map()) =~= before_direct.insert(name, dv));
            assert forall|k: Seq<char>| names_of(p1).contains(k) <==> names_of(p0).contains(k) || k == name by {
                if names_of(p1).contains(k) && k != name {
                    let j = names_of(p1).index_of(k);
                    assert(names_of(p0)[j] == k);
                }
                if names_of(p0).contains(k) {
                    let j = names_of(p0).index_of(k);
                    assert(names_of(p1)[j] == k);
                }
                if k == name {
                    assert(names_of(p1)[i as int] == k);
                }
            }
            assert(deps_view(direct.map()) =~= Map::new(
                |k: Seq<char>| names_of(p1).contains(k),
                |k: Seq<char>| listed_deps(dm, k),
            ));
        }
        let mut k: usize = 0;
        assert(dv.take(0) =~= Seq::<Seq<char>>::empty());
        while k < deps.len()
            invariant
                k <= deps@.len(),
                dv == views_of(deps@),
                name == pkg.name@,
                reverse.wf(),
                forall|d: Seq<char>| #[trigger] reverse.map().contains_key(d) <==> (dependents_in(p0, dm, d)
                    + name_per_match(dv.take(k as int), d, name)).len() > 0,
                forall|d: Seq<char>| #[trigger] reverse.map().contains_key(d) ==> views_of(reverse.map()[d]@)
                    == dependents_in(p0, dm, d) + name_per_match(dv.take(k as int), d, name),
            decreases deps@.len() - k,
        {
            let dep = &deps[k];
            assert(dv.take(k + 1).drop_last() =~= dv.take(k as int));
            assert(dv.take(k + 1).last() == dep@);
            let mut list: Vec<String> = match reverse.get(dep.as_str()) {
                Some(v) => clone_strings(v),
                None => Vec::new(),
            };
            let ghost lb = views_of(list@);
            list.push(pkg.name.clone());
            assert(views_of(list@) =~= lb.push(name));
            let ghost before = reverse.map();
            reverse.insert(dep.clone(), list);
            proof {
                assert forall|d: Seq<char>| #[trigger] reverse.map().contains_key(d) <==> (dependents_in(p0, dm, d)
                    + name_per_match(dv.take(k + 1), d, name)).len() > 0 by {
                    if d != dep@ {
                        assert(name_per_match(dv.take(k + 1), d, name) == name_per_match(dv.take(k as int), d, name));
                    }
                }
                assert forall|d: Seq<char>| #[trigger] reverse.map().contains_key(d) implies views_of(
                    reverse.map()[d]@,
                ) == dependents_in(p0, dm, d) + name_per_match(dv.take(k + 1), d, name) by {
                    if d == dep@ {
                        if before.contains_key(d) {
                            assert(views_of(reverse.map()[d]@) =~= (dependents_in(p0, dm, d) + name_per_match(
                                dv.take(k as int),
                                d,
                                name,
                            )).push(name));
                        } else {
                            assert((dependents_in(p0, dm, d) + name_per_match(dv.take(k as int), d, name)).len() == 0);
                            assert(views_of(reverse.map()[d]@) =~= (dependents_in(p0, dm, d) + name_per_match(
                                dv.take(k as int),
                                d,
                                name,
                            )).push(name));
                        }
                        assert((dependents_in(p0, dm, d) + name_per_match(dv.take(k as int), d, name)).push(name)
                            =~= dependents_in(p0, dm, d) + name_per_match(dv.take(k + 1), d, name));
                    } else {
                        assert(name_per_match(dv.take(k + 1), d, name) == name_per_match(dv.take(k as int), d, name));
                    }
                }
            }
            k = k + 1;
        }
        assert(dv.take(dv.len() as int) =~= dv);
        assert(forall|d: Seq<char>| #[trigger] dependents_in(p1, dm, d) == dependents_in(p0, dm, d) + name_per_match(
            dv,
            d,
            name,
        ));
        i = i + 1;
    }
    assert(ps.take(ps.len() as int) =~= ps);
    DependencyCache {
        direct_deps: direct,
        reverse_deps: reverse,
        built_at: now,
        package_count: packages.len(),
        max_depth: 0,
    }
}

/// The tracked state: the settings, the package cache, and the caches built from the
/// activity log, the dependency lists and the file owners.
pub struct Tracker {
    pub config: Config,
    pub cache_manager: CacheManager,
    pub dependency_cache: DependencyCache,
    pub usage_cache: UsageCache,
    pub file_map_cache: FileMapCache,
    pub last_rebuild: i64,
}

/// The views of a list of unused packages.
pub open spec fn unused_models(s: Seq<UnusedPackage>) -> Seq<UnusedModel> {
    s.map_values(|u: UnusedPackage| u@)
}

/// The entry for package `p` in the list of unused packages, if it belongs there: it is
/// not a protected core package, the log shows no use of it, and its last use (from the
/// index of its events) is more than `days` days before `now` (or, for 0 days, it has none).
pub open spec fn unused_entry(
    p: PackageModel,
    uc: UsageCache,
    protect_core: bool,
    days: u32,
    now: i64,
) -> Option<UnusedModel> {
    if is_core(p.name) && protect_core {
        None
    } else if used_names(uc.events@).contains(p.name) {
        None
    } else {
        let entry = |last: Option<i64>, d: u32|
            UnusedModel {
                name: p.name,
                source: p.source,
                last_used: last,
                days_unused: d,
                size: p.size,
                status: PackageStatus::Unused,
                install_path: p.install_path,
            };
        match max_timestamp(use_events(uc.package_events(p.name))) {
            Some(l) => if now - l > days * 86400 {
                Some(entry(Some(l), ((now - l) / 86400) as u32))
            } else {
                None
            },
            None => if days == 0 {
                Some(entry(None, 0))
            } else {
                None
            },
        }
    }
}

/// The unused packages among `ps`, in order.
pub open spec fn unused_list(
    ps: Seq<PackageModel>,
    uc: UsageCache,
    protect_core: bool,
    days: u32,
    now: i64,
) -> Seq<UnusedModel>
    decreases ps.len(),
{
    if ps.len() == 0 {
        Seq::empty()
    } else {
        let r = unused_list(ps.drop_last(), uc, protect_core, days, now);
        match unused_entry(ps.last(), uc, protect_core, days, now) {
            Some(u) => r.push(u),
            None => r,
        }
    }
}

/// Whether the dependencies of every package reached from `roots`, other than core
/// packages, are recorded.
pub open spec fn deps_complete(
    g: Map<Seq<char>, Vec<String>>,
    fm: Map<Seq<char>, String>,
    roots: Seq<Seq<char>>,
) -> bool {
    forall|y: Seq<char>| #[trigger] reachable(g, fm, roots, y) && !is_core(y) ==> g.contains_key(resolved(fm, y))
}

/// The unused packages of `us` that nothing used depends on; a core package among them is
/// marked system critical.
pub open spec fn not_depended_on(
    us: Seq<UnusedModel>,
    g: Map<Seq<char>, Vec<String>>,
    fm: Map<Seq<char>, String>,
    roots: Seq<Seq<char>>,
) -> Seq<UnusedModel>
    decreases us.len(),
{
    if us.len() == 0 {
        Seq::empty()
    } else {
        let r = not_depended_on(us.drop_last(), g, fm, roots);
        let u = us.last();
        if reachable(g, fm, roots, u.name) {
            r
        } else if is_core(u.name) {
            r.push(UnusedModel { status: PackageStatus::SystemCritical, ..u })
        } else {
            r.push(u)
        }
    }
}

/// No unused package is a used one.
proof fn lemma_unused_not_used(ps: Seq<PackageModel>, uc: UsageCache, protect_core: bool, days: u32, now: i64)
    ensures
        forall|j: int| 0 <= j < unused_list(ps, uc, protect_core, days, now).len() ==> !used_names(uc.events@).contains(
            #[trigger] unused_list(ps, uc, protect_core, days, now)[j].name,
        ),
    decreases ps.len(),
{
    if ps.len() > 0 {
        lemma_unused_not_used(ps.drop_last(), uc, protect_core, days, now);
    }
}

/// Why a package is kept, as `explain_protection` finds it.
#[derive(Debug)]
pub enum Protection {
    /// The log shows it installed or used.
    DirectlyUsed,
    /// It is a core package and core packages are protected.
    CorePackage,
    /// A used package (named) lists it as a direct dependency.
    DependencyOf(String),
    /// It is reached through the dependencies of used packages.
    DependencyOfUsed,
    /// Nothing keeps it.
    NotProtected,
}

impl Protection {
    /// The sentence that explains the protection of `package`.
    pub open spec fn text(self, package: Seq<char>) -> Seq<char> {
        let head = "Package '"@ + package;
        match self {
            Protection::DirectlyUsed => head + "' is directly used (you installed it)"@,
            Protection::CorePackage => head + "' is a core system package"@,
            Protection::DependencyOf(u) => head + "' is a dependency of '"@ + u@ + "'"@,
            Protection::DependencyOfUsed => head + "' is a dependency of used packages"@,
            Protection::NotProtected => head + "' is not protected"@,
        }
    }

    /// The sentence that explains the protection of `package`.
    pub fn message(&self, package: &str) -> (s: String)
        ensures
            s@ == self.text(package@),
    {
        let mut s = owned("Package '");
        push_str(&mut s, package);
        match self {
            Protection::DirectlyUsed => push_str(&mut s, "' is directly used (you installed it)"),
            Protection::CorePackage => push_str(&mut s, "' is a core system package"),
            Protection::DependencyOf(u) => {
                push_str(&mut s, "' is a dependency of '");
                push_str(&mut s, u.as_str());
                push_str(&mut s, "'");
            },
            Protection::DependencyOfUsed => push_str(&mut s, "' is a dependency of used packages"),
            Protection::NotProtected => push_str(&mut s, "' is not protected"),
        }
        s
    }
}

/// The first of `roots` whose recorded dependencies list `x` (`Ok`), unless a package
/// before it has no recorded dependencies (`Err` with its resolved name); `None` when
/// neither happens.
pub open spec fn first_provider(
    roots: Seq<Seq<char>>,
    g: Map<Seq<char>, Vec<String>>,
    fm: Map<Seq<char>, String>,
    x: Seq<char>,
) -> Option<Result<Seq<char>, Seq<char>>>
    decreases roots.len(),
{
    if roots.len() == 0 {
        None
    } else {
        let y = roots[0];
        if !g.contains_key(resolved(fm, y)) {
            Some(Err(resolved(fm, y)))
        } else if deps_of(g, fm, y).contains(x) {
            Some(Ok(y))
        } else {
            first_provider(roots.drop_first(), g, fm, x)
        }
    }
}

/// The names of the packages of `ps` whose recorded dependencies list `x`, in order.
pub open spec fn dependents_among(
    ps: Seq<PackageModel>,
    g: Map<Seq<char>, Vec<String>>,
    fm: Map<Seq<char>, String>,
    x: Seq<char>,
) -> Seq<Seq<char>>
    decreases ps.len(),
{
    if ps.len() == 0 {
        Seq::empty()
    } else {
        let r = dependents_among(ps.drop_last(), g, fm, x);
        if g.contains_key(resolved(fm, ps.last().name)) && deps_of(g, fm, ps.last().name).contains(x) {
            r.push(ps.last().name)
        } else {
            r
        }
    }
}

/// The resolved names of the packages of `ps` whose dependencies are not recorded, in order.
pub open spec fn unrecorded_among(
    ps: Seq<PackageModel>,
    g: Map<Seq<char>, Vec<String>>,
    fm: Map<Seq<char>, String>,
) -> Seq<Seq<char>>
    decreases ps.len(),
{
    if ps.len() == 0 {
        Seq::empty()
    } else {
        let r = unrecorded_among(ps.drop_last(), g, fm);
        if !g.contains_key(resolved(fm, ps.last().name)) {
            r.push(resolved(fm, ps.last().name))
        } else {
            r
        }
    }
}

/// The first package of `ps` called `name`.
pub open spec fn first_named(ps: Seq<PackageModel>, name: Seq<char>) -> Option<PackageModel>
    decreases ps.len(),
{
    if ps.len() == 0 {
        None
    } else if ps[0].name == name {
        Some(ps[0])
    } else {
        first_named(ps.drop_first(), name)
    }
}

/// Why the tracker refuses a request.
#[derive(Debug)]
pub enum TrackerError {
    /// No installed package has this name.
    PackageNotFound(String),
    /// Packages of this source cannot be installed by the tracker.
    CannotInstall(PackageSource),
}

impl TrackerError {
    /// The message that reports the error.
    pub open spec fn text(self) -> Seq<char> {
        match self {
            TrackerError::PackageNotFound(n) => "Package '"@ + n@ + "' not found"@,
            TrackerError::CannotInstall(s) => "Cannot automatically install "@ + s.name() + " packages"@,
        }
    }

    /// The message that reports the error.
    pub fn message(&self) -> (s: String)
        ensures
            s@ == self.text(),
    {
        match self {
            TrackerError::PackageNotFound(n) => {
                let mut s = owned("Package '");
                push_str(&mut s, n.as_str());
                push_str(&mut s, "' not found");
                s
            },
            TrackerError::CannotInstall(src) => {
                let mut s = owned("Cannot automatically install ");
                let name = src.to_string();
                push_str(&mut s, name.as_str());
                push_str(&mut s, " packages");
                s
            },
        }
    }
}

/// The log event that records an action on a package at time `now`.
pub open spec fn event_for(name: Seq<char>, action: Seq<char>, source: PackageSource, now: i64, e: PackageEvent) -> bool {
    &&& e.timestamp == now
    &&& e.package@ == name
    &&& e.action@ == action
    &&& e.source == source
    &&& e.details is None
    &&& e.pid is None
    &&& e.user is None
}

impl Tracker {
    /// The caches are well formed.
    pub open spec fn wf(&self) -> bool {
        &&& self.cache_manager.wf()
        &&& self.dependency_cache.wf()
        &&& self.usage_cache.wf()
        &&& self.file_map_cache.wf()
    }

    /// The installed packages, in the order of the cache.
    pub open spec fn installed(&self) -> Seq<PackageModel> {
        self.cache_manager.listing()
    }

    /// The recorded direct dependencies, by package name.
    pub open spec fn graph(&self) -> Map<Seq<char>, Vec<String>> {
        self.dependency_cache.direct_deps.map()
    }

    /// The owners of known files, by file name.
    pub open spec fn files(&self) -> Map<Seq<char>, String> {
        self.file_map_cache.mapping.map()
    }

    /// The packages the log shows in use, in order of first use.
    pub open spec fn used(&self) -> Seq<Seq<char>> {
        used_order(self.usage_cache.events@)
    }

    /// Whether neither the log nor core protection decides at once that `package` is kept.
    pub open spec fn undecided(&self, package: Seq<char>) -> bool {
        !used_names(self.usage_cache.events@).contains(package) && !(is_core(package) && self.config@.protect_core)
    }

    /// A tracker with the given settings and nothing cached yet.
    pub fn new(config: Config) -> (t: Self)
        ensures
            t.wf(),
            t.config@ == config@,
            t.cache_manager.config() == config@,
            t.installed().len() == 0,
            t.usage_cache.events@.len() == 0,
            t.graph() == Map::<Seq<char>, Vec<String>>::empty(),
            t.files() == Map::<Seq<char>, String>::empty(),
            t.last_rebuild == 0,
    {
        let cache_manager = CacheManager::new(config.duplicate());
        Tracker {
            config,
            cache_manager,
            dependency_cache: DependencyCache::new(),
            usage_cache: UsageCache::new(),
            file_map_cache: FileMapCache::new(),
            last_rebuild: 0,
        }
    }

    /// All installed packages.
    pub fn get_installed_packages_all(&self) -> (r: Vec<Package>)
        requires
            self.wf(),
        ensures
            models_of(r@) == self.installed(),
    {
        self.cache_manager.get_all()
    }

    /// Rebuilds the usage cache from the log events and the dependency cache of the
    /// installed packages from the dependency lists, at time `now`.
    pub fn rebuild_caches(&mut self, events: Vec<PackageEvent>, deps_map: &StrMap<Vec<String>>, now: i64)
        requires
            old(self).wf(),
            deps_map.wf(),
        ensures
            final(self).wf(),
            usage_cache_of(final(self).usage_cache, events@, now),
            dependency_cache_of(final(self).dependency_cache, old(self).installed(), deps_map.map(), now),
            final(self).last_rebuild == now,
            final(self).config == old(self).config,
            final(self).cache_manager == old(self).cache_manager,
            final(self).file_map_cache == old(self).file_map_cache,
    {
        self.usage_cache = build_usage_cache(events, now);
        let installed = self.get_installed_packages_all();
        self.dependency_cache = build_dependency_cache(&installed, deps_map, now);
        self.last_rebuild = now;
    }

    /// Replaces the map from file names to owning packages, built at time `now`.
    pub fn build_file_map_cache(&mut self, mapping: StrMap<String>, now: i64)
        requires
            old(self).wf(),
            mapping.wf(),
        ensures
            final(self).wf(),
            final(self).files() == mapping.map(),
            final(self).file_map_cache.built_at == now,
            final(self).file_map_cache.total_entries == mapping.map().dom().len(),
            final(self).config == old(self).config,
            final(self).cache_manager == old(self).cache_manager,
            final(self).dependency_cache == old(self).dependency_cache,
            final(self).usage_cache == old(self).usage_cache,
            final(self).last_rebuild == old(self).last_rebuild,
    {
        let n = mapping.len();
        proof {
            mapping.lemma_entries();
        }
        self.file_map_cache = FileMapCache { mapping, built_at: now, total_entries: n };
    }

    /// The package cache of the tracker.
    pub fn get_cache_manager(&self) -> (m: &CacheManager)
        ensures
            *m == self.cache_manager,
    {
        &self.cache_manager
    }

    /// The number of known file owners and when the map was built.
    pub fn get_file_map_stats(&self) -> (r: (usize, i64))
        ensures
            r == (self.file_map_cache.total_entries, self.file_map_cache.built_at),
    {
        (self.file_map_cache.total_entries, self.file_map_cache.built_at)
    }

    /// The core packages, which are never treated as unused while protected.
    pub fn get_core_packages() -> (v: Vec<String>)
        ensures
            views_of(v@) == core_names(),
    {
        get_core_packages()
    }

    /// The packages the log shows in use (installed or used), each once.
    pub fn get_used_packages(&self) -> (r: Vec<String>)
        ensures
            views_of(r@) == self.used(),
            views_of(r@).to_set() == used_names(self.usage_cache.events@),
    {
        self.usage_cache.get_used_packages()
    }

    /// The number of uses the log records for `package`, if any.
    pub fn get_usage_count_from_cache(&self, package: &str) -> (r: Option<u64>)
        requires
            self.wf(),
        ensures
            r is Some == (use_events(self.usage_cache.package_events(package@)).len() > 0),
            r matches Some(n) ==> n == use_events(self.usage_cache.package_events(package@)).len(),
    {
        let count = self.usage_cache.get_usage_count(package);
        if count > 0 {
            Some(count as u64)
        } else {
            None
        }
    }

    /// The installed packages unused for more than `days_threshold` days at time `now`.
    pub fn find_unused(&self, days_threshold: u32, now: i64) -> (r: Vec<UnusedPackage>)
        requires
            self.wf(),
        ensures
            unused_models(r@) == unused_list(
                self.installed(),
                self.usage_cache,
                self.config@.protect_core,
                days_threshold,
                now,
            ),
    {
        let installed = self.get_installed_packages_all();
        let ghost ps = models_of(installed@);
        let used = self.get_used_packages();
        proof {
            lemma_used_order(self.usage_cache.events@);
        }
        let threshold: i128 = (days_threshold as i128) * 86400;
        let protect = self.config.protect_core;
        let mut unused: Vec<UnusedPackage> = Vec::new();
        let mut i: usize = 0;
        while i < installed.len()
            invariant
                self.wf(),
                i <= installed@.len(),
                ps == models_of(installed@),
                ps == self.installed(),
                protect == self.config@.protect_core,
                threshold == days_threshold * 86400,
                views_of(used@).to_set() == used_names(self.usage_cache.events@),
                unused_models(unused@) == unused_list(ps.take(i as int), self.usage_cache, protect, days_threshold, now),
            decreases installed@.len() - i,
        {
            let pkg = &installed[i];
            let ghost p1 = ps.take(i + 1);
            assert(p1.drop_last() =~= ps.take(i as int));
            assert(p1.last() == pkg@);
            let ghost before = unused_models(unused@);
            let skip = (is_core_package(pkg.name.as_str()) && protect) || contains_name(&used, pkg.name.as_str());
            assert(views_of(used@).contains(pkg.name@) == views_of(used@).to_set().contains(pkg.name@));
            if !skip {
                let last = self.usage_cache.get_last_use(pkg.name.as_str());
                let days_unused: Option<u32> = match last {
                    Some(l) => {
                        let age: i128 = (now as i128) - (l as i128);
                        if age > threshold {
                            Some(((age as u128) / 86400) as u32)
                        } else {
                            None
                        }
                    },
                    None => if days_threshold == 0 {
                        Some(0)
                    } else {
                        None
                    },
                };
                match days_unused {
                    Some(d) => {
                        unused.push(
                            UnusedPackage {
                                name: pkg.name.clone(),
                                source: pkg.source,
                                last_used: last,
                                days_unused: d,
                                size: pkg.size,
                                status: PackageStatus::Unused,
                                install_path: pkg.install_path.clone(),
                            },
                        );
                        assert(unused_models(unused@) =~= before.push(unused_entry(pkg@, self.usage_cache, protect, days_threshold, now).unwrap()));
                    },
                    None => {},
                }
            }
            i = i + 1;
        }
        assert(ps.take(ps.len() as int) =~= ps);
        unused
    }

    /// The dependencies reached from `packages` (see `dependency_closure`), with the names
    /// whose dependencies are needed but not recorded.
    pub fn get_all_dependencies(&self, packages: &[String]) -> (r: DependencyClosure)
        requires
            self.wf(),
        ensures
            views_of(r.deps@).no_duplicates(),
            forall|x: Seq<char>| #[trigger] views_of(r.deps@).contains(x) ==> reachable(
                self.graph(),
                self.files(),
                views_of(packages@),
                x,
            ),
            forall|x: Seq<char>|
                reachable(self.graph(), self.files(), views_of(packages@), x) && !views_of(packages@).contains(x)
                    ==> #[trigger] views_of(r.deps@).contains(x),
            forall|m: Seq<char>| #[trigger] views_of(r.missing@).contains(m) ==> needed_unknown(
                self.graph(),
                self.files(),
                views_of(packages@),
                m,
            ),
            (r.missing@.len() == 0) == deps_complete(self.graph(), self.files(), views_of(packages@)),
    {
        let r = dependency_closure(&self.dependency_cache.direct_deps, &self.file_map_cache.mapping, packages);
        proof {
            if r.missing@.len() > 0 {
                assert(views_of(r.missing@).contains(views_of(r.missing@)[0]));
            }
            if !deps_complete(self.graph(), self.files(), views_of(packages@)) {
                let y = choose|y: Seq<char>| #[trigger] reachable(self.graph(), self.files(), views_of(packages@), y)
                    && !is_core(y) && !self.graph().contains_key(resolved(self.files(), y));
                assert(views_of(r.missing@).contains(resolved(self.files(), y)));
            }
        }
        r
    }

    /// The unused packages (as `find_unused`) that no used package depends on, a core one
    /// among them marked system critical; or, when dependencies needed to decide are not
    /// recorded, their names.
    pub fn find_unused_with_deps(&self, days_threshold: u32, now: i64) -> (r: Result<Vec<UnusedPackage>, Vec<String>>)
        requires
            self.wf(),
        ensures
            r is Ok == deps_complete(self.graph(), self.files(), self.used()),
            r matches Ok(v) ==> unused_models(v@) == not_depended_on(
                unused_list(self.installed(), self.usage_cache, self.config@.protect_core, days_threshold, now),
                self.graph(),
                self.files(),
                self.used(),
            ),
            r matches Err(m) ==> m@.len() > 0 && forall|n: Seq<char>| #[trigger] views_of(m@).contains(n)
                ==> needed_unknown(self.graph(), self.files(), self.used(), n),
    {
        let unused = self.find_unused(days_threshold, now);
        let used = self.get_used_packages();
        let closure = self.get_all_dependencies(used.as_slice());
        if closure.missing.len() > 0 {
            return Err(closure.missing);
        }
        let ghost us = unused_models(unused@);
        let ghost roots = self.used();
        proof {
            lemma_unused_not_used(self.installed(), self.usage_cache, self.config@.protect_core, days_threshold, now);
            lemma_used_order(self.usage_cache.events@);
        }
        let mut filtered: Vec<UnusedPackage> = Vec::new();
        let mut i: usize = 0;
        while i < unused.len()
            invariant
                i <= unused@.len(),
                us == unused_models(unused@),
                roots == views_of(used@),
                roots.to_set() == used_names(self.usage_cache.events@),
                us == unused_list(self.installed(), self.usage_cache, self.config@.protect_core, days_threshold, now),
                forall|j: int| 0 <= j < us.len() ==> !used_names(self.usage_cache.events@).contains(#[trigger] us[j].name),
                forall|x: Seq<char>| #[trigger] views_of(closure.deps@).contains(x) ==> reachable(self.graph(), self.files(), roots, x),
                forall|x: Seq<char>| reachable(self.graph(), self.files(), roots, x) && !roots.contains(x) ==> #[trigger] views_of(closure.deps@).contains(x),
                unused_models(filtered@) == not_depended_on(us.take(i as int), self.graph(), self.files(), roots),
            decreases unused@.len() - i,
        {
            let u = &unused[i];
            let ghost u1 = us.take(i + 1);
            assert(u1.drop_last() =~= us.take(i as int));
            assert(u1.last() == u@);
            assert(us[i as int] == u@);
            assert(!roots.to_set().contains(u.name@));
            let is_dependency = contains_name(&closure.deps, u.name.as_str());
            assert(is_dependency == reachable(self.graph(), self.files(), roots, u.name@));
            if !is_dependency {
                let ghost before = unused_models(filtered@);
                let mut kept = u.clone();
                if is_core_package(u.name.as_str()) {
                    kept.status = PackageStatus::SystemCritical;
                }
                filtered.push(kept);
                assert(unused_models(filtered@) =~= before.push(
                    if is_core(u.name@) { UnusedModel { status: PackageStatus::SystemCritical, ..u@ } } else { u@ },
                ));
            }
            i = i + 1;
        }
        assert(us.take(us.len() as int) =~= us);
        Ok(filtered)
    }
    /// The direct dependencies of `package` (or of the package owning the file it names),
    /// or, when none are recorded, the name to ask for them.
    pub fn get_dependencies(&self, package: &str) -> (r: DepLookup)
        requires
            self.wf(),
        ensures
            match r {
                DepLookup::Known(d) => self.graph().contains_key(resolved(self.files(), package@)) && views_of(d@)
                    == deps_of(self.graph(), self.files(), package@),
                DepLookup::Unknown(n) => n@ == resolved(self.files(), package@) && !self.graph().contains_key(n@),
            },
    {
        lookup_dependencies(&self.dependency_cache.direct_deps, &self.file_map_cache.mapping, package)
    }

    /// Records the direct dependencies of `name`, as the system reported them.
    pub fn record_dependencies(&mut self, name: String, deps: Vec<String>)
        requires
            old(self).wf(),
        ensures
            final(self).wf(),
            final(self).graph() == old(self).graph().insert(name@, deps),
            final(self).dependency_cache.reverse_deps == old(self).dependency_cache.reverse_deps,
            final(self).config == old(self).config,
            final(self).cache_manager == old(self).cache_manager,
            final(self).usage_cache == old(self).usage_cache,
            final(self).file_map_cache == old(self).file_map_cache,
            final(self).last_rebuild == old(self).last_rebuild,
    {
        self.dependency_cache.direct_deps.insert(name, deps);
    }

    /// The installed packages that list `package` as a direct dependency: the recorded
    /// answer if there is one; else it is worked out from the recorded dependencies of the
    /// installed packages and recorded. When some of those are not recorded, their names
    /// are given instead and nothing changes.
    pub fn get_reverse_dependencies(&mut self, package: &str) -> (r: Result<Vec<String>, Vec<String>>)
        requires
            old(self).wf(),
        ensures
            final(self).wf(),
            old(self).dependency_cache.reverse_deps.map().contains_key(package@) ==> (r matches Ok(v) && v@
                == old(self).dependency_cache.reverse_deps.map()[package@]@ && *final(self) == *old(self)),
            !old(self).dependency_cache.reverse_deps.map().contains_key(package@) ==> {
                &&& r is Ok == (unrecorded_among(old(self).installed(), old(self).graph(), old(self).files()).len() == 0)
                &&& r matches Ok(v) ==> views_of(v@) == dependents_among(
                    old(self).installed(),
                    old(self).graph(),
                    old(self).files(),
                    package@,
                ) && deps_view(final(self).dependency_cache.reverse_deps.map()) == deps_view(
                    old(self).dependency_cache.reverse_deps.map(),
                ).insert(package@, views_of(v@))
                    && final(self).dependency_cache.direct_deps == old(self).dependency_cache.direct_deps
                    && final(self).cache_manager == old(self).cache_manager
                    && final(self).usage_cache == old(self).usage_cache
                    && final(self).file_map_cache == old(self).file_map_cache
                &&& r matches Err(m) ==> views_of(m@) == unrecorded_among(
                    old(self).installed(),
                    old(self).graph(),
                    old(self).files(),
                ) && *final(self) == *old(self)
            },
    {
        match self.dependency_cache.get_reverse_deps(package) {
            Some(v) => {
                return Ok(clone_strings(v));
            },
            None => {},
        }
        let installed = self.get_installed_packages_all();
        let ghost ps = models_of(installed@);
        let ghost g = self.graph();
        let ghost fm = self.files();
        let mut found: Vec<String> = Vec::new();
        let mut unknown: Vec<String> = Vec::new();
        let mut i: usize = 0;
        while i < installed.len()
            invariant
                self.wf(),
                *self == *old(self),
                i <= installed@.len(),
                ps == models_of(installed@),
                g == self.graph(),
                fm == self.files(),
                views_of(found@) == dependents_among(ps.take(i as int), g, fm, package@),
                views_of(unknown@) == unrecorded_among(ps.take(i as int), g, fm),
            decreases installed@.len() - i,
        {
            let pkg = &installed[i];
            let ghost p1 = ps.take(i + 1);
            assert(p1.drop_last() =~= ps.take(i as int));
            assert(p1.last() == pkg@);
            match self.get_dependencies(pkg.name.as_str()) {
                DepLookup::Known(d) => {
                    if contains_name(&d, package) {
                        let ghost before = views_of(found@);
                        found.push(pkg.name.clone());
                        assert(views_of(found@) =~= before.push(pkg.name@));
                    }
                },
                DepLookup::Unknown(n) => {
                    let ghost before = views_of(unknown@);
                    unknown.push(n);
                    assert(views_of(unknown@) =~= before.push(resolved(fm, pkg.name@)));
                },
            }
            i = i + 1;
        }
        assert(ps.take(ps.len() as int) =~= ps);
        if unknown.len() > 0 {
            return Err(unknown);
        }
        let ghost before = deps_view(self.dependency_cache.reverse_deps.map());
        self.dependency_cache.reverse_deps.insert(owned(package), clone_strings(&found));
        assert(deps_view(self.dependency_cache.reverse_deps.map()) =~= before.insert(package@, views_of(found@)));
        Ok(found)
    }

    /// Why `package` is kept: the log shows it used, it is a protected core package, or a
    /// used package depends on it (directly, naming the first used package that lists it,
    /// or through others). When dependencies needed to decide are not recorded, their
    /// names are given instead.
    pub fn explain_protection(&self, package: &str) -> (r: Result<Protection, Vec<String>>)
        requires
            self.wf(),
        ensures
            used_names(self.usage_cache.events@).contains(package@) ==> r matches Ok(Protection::DirectlyUsed),
            !used_names(self.usage_cache.events@).contains(package@) && is_core(package@)
                && self.config@.protect_core ==> r matches Ok(Protection::CorePackage),
            self.undecided(package@) && !deps_complete(self.graph(), self.files(), self.used()) ==> (r matches Err(m)
                && m@.len() > 0 && forall|n: Seq<char>| #[trigger] views_of(m@).contains(n) ==> needed_unknown(
                self.graph(),
                self.files(),
                self.used(),
                n,
            )),
            self.undecided(package@) && deps_complete(self.graph(), self.files(), self.used()) && !reachable(
                self.graph(),
                self.files(),
                self.used(),
                package@,
            ) ==> r matches Ok(Protection::NotProtected),
            self.undecided(package@) && deps_complete(self.graph(), self.files(), self.used()) && reachable(
                self.graph(),
                self.files(),
                self.used(),
                package@,
            ) ==> match first_provider(self.used(), self.graph(), self.files(), package@) {
                Some(Ok(n)) => r matches Ok(Protection::DependencyOf(u)) && u@ == n,
                Some(Err(n)) => r matches Err(m) && views_of(m@) == seq![n],
                None => r matches Ok(Protection::DependencyOfUsed),
            },
    {
        let used = self.get_used_packages();
        proof {
            lemma_used_order(self.usage_cache.events@);
            assert(views_of(used@).contains(package@) == views_of(used@).to_set().contains(package@));
        }
        if contains_name(&used, package) {
            return Ok(Protection::DirectlyUsed);
        }
        if is_core_package(package) && self.config.protect_core {
            return Ok(Protection::CorePackage);
        }
        let closure = self.get_all_dependencies(used.as_slice());
        if closure.missing.len() > 0 {
            return Err(closure.missing);
        }
        let ghost roots = views_of(used@);
        if !contains_name(&closure.deps, package) {
            return Ok(Protection::NotProtected);
        }
        let mut i: usize = 0;
        assert(roots.skip(0) =~= roots);
        while i < used.len()
            invariant
                self.wf(),
                i <= used@.len(),
                roots == views_of(used@),
                roots == self.used(),
                self.undecided(package@),
                deps_complete(self.graph(), self.files(), self.used()),
                reachable(self.graph(), self.files(), self.used(), package@),
                first_provider(roots, self.graph(), self.files(), package@) == first_provider(
                    roots.skip(i as int),
                    self.graph(),
                    self.files(),
                    package@,
                ),
            decreases used@.len() - i,
        {
            assert(roots.skip(i as int)[0] == used@[i as int]@);
            assert(roots.skip(i as int).drop_first() =~= roots.skip(i + 1));
            match self.get_dependencies(used[i].as_str()) {
                DepLookup::Known(d) => {
                    if contains_name(&d, package) {
                        return Ok(Protection::DependencyOf(used[i].clone()));
                    }
                },
                DepLookup::Unknown(n) => {
                    let mut m: Vec<String> = Vec::new();
                    m.push(n);
                    assert(views_of(m@) =~= seq![resolved(self.files(), used@[i as int]@)]);
                    return Err(m);
                },
            }
            i = i + 1;
        }
        assert(roots.skip(i as int).len() == 0);
        Ok(Protection::DependencyOfUsed)
    }

    /// What is known of the installed package called `package`, with its dependencies,
    /// the packages depending on it and its dates as the caller found them, and its usage
    /// count from the log.
    pub fn get_package_info(
        &self,
        package: &str,
        dependencies: Vec<String>,
        reverse_dependencies: Vec<String>,
        installed_date: Option<String>,
        last_used_date: Option<String>,
    ) -> (r: Result<PackageInfo, TrackerError>)
        requires
            self.wf(),
        ensures
            r is Ok == first_named(self.installed(), package@) is Some,
            r matches Err(e) ==> e matches TrackerError::PackageNotFound(n) && n@ == package@,
            r matches Ok(info) ==> {
                let p = first_named(self.installed(), package@).unwrap();
                &&& info.name@ == p.name
                &&& opt_view(info.version) == p.version
                &&& info.source == p.source
                &&& info.install_path@ == p.install_path
                &&& info.size == p.size
                &&& info.installed_date == installed_date
                &&& info.last_used_date == last_used_date
                &&& info.dependencies == Some(dependencies)
                &&& info.reverse_dependencies == Some(reverse_dependencies)
                &&& (info.usage_count is Some == (use_events(self.usage_cache.package_events(package@)).len() > 0))
                &&& (info.usage_count matches Some(c) ==> c == use_events(self.usage_cache.package_events(package@)).len())
                &&& opt_view(info.checksum) == p.checksum
            },
    {
        let installed = self.get_installed_packages_all();
        let ghost ps = models_of(installed@);
        let mut i: usize = 0;
        assert(ps.skip(0) =~= ps);
        while i < installed.len()
            invariant
                self.wf(),
                i <= installed@.len(),
                ps == models_of(installed@),
                ps == self.installed(),
                first_named(ps, package@) == first_named(ps.skip(i as int), package@),
            decreases installed@.len() - i,
        {
            assert(ps.skip(i as int)[0] == installed@[i as int]@);
            assert(ps.skip(i as int).drop_first() =~= ps.skip(i + 1));
            if crate::text::str_eq(installed[i].name.as_str(), package) {
                let p = &installed[i];
                let usage_count = self.get_usage_count_from_cache(package);
                return Ok(
                    PackageInfo {
                        name: p.name.clone(),
                        version: clone_opt_string(&p.version),
                        source: p.source,
                        install_path: p.install_path.clone(),
                        size: p.size,
                        installed_date,
                        last_used_date,
                        dependencies: Some(dependencies),
                        reverse_dependencies: Some(reverse_dependencies),
                        usage_count,
                        checksum: clone_opt_string(&p.checksum),
                    },
                );
            }
            i = i + 1;
        }
        assert(ps.skip(i as int).len() == 0);
        Err(TrackerError::PackageNotFound(owned(package)))
    }

    /// Drops `package` from the package cache.
    pub fn remove_package_from_cache(&mut self, package: &str)
        requires
            old(self).wf(),
        ensures
            final(self).wf(),
            final(self).cache_manager.packages() == old(self).cache_manager.packages().remove(package@),
            final(self).cache_manager.config() == old(self).cache_manager.config(),
            final(self).config == old(self).config,
            final(self).dependency_cache == old(self).dependency_cache,
            final(self).usage_cache == old(self).usage_cache,
            final(self).file_map_cache == old(self).file_map_cache,
    {
        self.cache_manager.remove_package(package);
    }

    /// Once an unused package has been taken off the system: drops it from the package
    /// cache and gives the `REMOVE` event to log, dated `now`.
    pub fn remove_package(&mut self, unused_pkg: &UnusedPackage, now: i64) -> (e: PackageEvent)
        requires
            old(self).wf(),
        ensures
            final(self).wf(),
            final(self).cache_manager.packages() == old(self).cache_manager.packages().remove(unused_pkg.name@),
            final(self).config == old(self).config,
            final(self).dependency_cache == old(self).dependency_cache,
            final(self).usage_cache == old(self).usage_cache,
            final(self).file_map_cache == old(self).file_map_cache,
            event_for(unused_pkg.name@, "REMOVE"@, unused_pkg.source, now, e),
    {
        self.remove_package_from_cache(unused_pkg.name.as_str());
        PackageEvent {
            timestamp: now,
            package: unused_pkg.name.clone(),
            action: owned("REMOVE"),
            source: unused_pkg.source,
            details: None,
            pid: None,
            user: None,
        }
    }

    /// Whether the tracker can install `package`: only `pkg` packages can be.
    pub fn installable(package: &Package) -> (r: Result<(), TrackerError>)
        ensures
            r is Ok == (package.source == PackageSource::Pkg),
            r matches Err(e) ==> e == TrackerError::CannotInstall(package.source),
    {
        match package.source {
            PackageSource::Pkg => Ok(()),
            _ => Err(TrackerError::CannotInstall(package.source)),
        }
    }

    /// Once `package` has been installed on the system: adds it to the package cache and
    /// gives the `INSTALL` event to log, dated `now`. Only `pkg` packages are accepted.
    pub fn install_package(&mut self, package: &Package, now: i64) -> (r: Result<PackageEvent, TrackerError>)
        requires
            old(self).wf(),
        ensures
            final(self).wf(),
            r is Ok == (package.source == PackageSource::Pkg),
            r matches Err(e) ==> e == TrackerError::CannotInstall(package.source) && *final(self) == *old(self),
            r matches Ok(e) ==> event_for(package.name@, "INSTALL"@, PackageSource::Pkg, now, e)
                && final(self).cache_manager.packages() == old(self).cache_manager.packages().insert(
                package.name@,
                package@,
            ),
            final(self).config == old(self).config,
            final(self).dependency_cache == old(self).dependency_cache,
            final(self).usage_cache == old(self).usage_cache,
            final(self).file_map_cache == old(self).file_map_cache,
    {
        match Self::installable(package) {
            Err(e) => Err(e),
            Ok(()) => {
                self.cache_manager.add_package(package.clone());
                Ok(
                    PackageEvent {
                        timestamp: now,
                        package: package.name.clone(),
                        action: owned("INSTALL"),
                        source: PackageSource::Pkg,
                        details: None,
                        pid: None,
                        user: None,
                    },
                )
            },
        }
    }
}

/// Whether the unused package `u` stands for the installed package `p`: same name,
/// source, size and path.
pub open spec fn stands_for(p: PackageModel, u: UnusedModel) -> bool {
    p.name == u.name && p.source == u.source && p.size == u.size && p.install_path == u.install_path
}

/// The installed package that an unused package found stands for.
proof fn lemma_unused_source(ps: Seq<PackageModel>, uc: UsageCache, protect_core: bool, days: u32, now: i64, j: int) -> (k: int)
    requires
        0 <= j < unused_list(ps, uc, protect_core, days, now).len(),
    ensures
        0 <= k < ps.len(),
        stands_for(ps[k], unused_list(ps, uc, protect_core, days, now)[j]),
    decreases ps.len(),
{
    let q = ps.drop_last();
    let r = unused_list(q, uc, protect_core, days, now);
    if j < r.len() {
        let k = lemma_unused_source(q, uc, protect_core, days, now, j);
        assert(ps[k] == q[k]);
        k
    } else {
        ps.len() - 1
    }
}

/// Whether some package of `ps` is the one that `u` stands for.
pub open spec fn installed_as(ps: Seq<PackageModel>, u: UnusedModel) -> bool {
    exists|k: int| 0 <= k < ps.len() && #[trigger] stands_for(ps[k], u)
}

/// The unused packages found are installed packages: each one stands for an installed
/// package.
pub proof fn law_unused_are_installed(ps: Seq<PackageModel>, uc: UsageCache, protect_core: bool, days: u32, now: i64)
    ensures
        forall|j: int|
            0 <= j < unused_list(ps, uc, protect_core, days, now).len() ==> installed_as(
                ps,
                #[trigger] unused_list(ps, uc, protect_core, days, now)[j],
            ),
{
    assert forall|j: int| 0 <= j < unused_list(ps, uc, protect_core, days, now).len() implies installed_as(
        ps,
        #[trigger] unused_list(ps, uc, protect_core, days, now)[j],
    ) by {
        let k = lemma_unused_source(ps, uc, protect_core, days, now, j);
        assert(stands_for(ps[k], unused_list(ps, uc, protect_core, days, now)[j]));
    }
}

/// No unused package is one the log shows in use, none is a protected core package,
/// and each is marked unused.
pub proof fn law_unused_never_used(ps: Seq<PackageModel>, uc: UsageCache, protect_core: bool, days: u32, now: i64)
    ensures
        forall|j: int| 0 <= j < unused_list(ps, uc, protect_core, days, now).len() ==> {
            let u = #[trigger] unused_list(ps, uc, protect_core, days, now)[j];
            &&& !used_names(uc.events@).contains(u.name)
            &&& !(protect_core && is_core(u.name))
            &&& u.status == PackageStatus::Unused
        },
    decreases ps.len(),
{
    if ps.len() > 0 {
        let q = ps.drop_last();
        law_unused_never_used(q, uc, protect_core, days, now);
        let r = unused_list(q, uc, protect_core, days, now);
        assert forall|j: int| 0 <= j < unused_list(ps, uc, protect_core, days, now).len() implies {
            let u = #[trigger] unused_list(ps, uc, protect_core, days, now)[j];
            &&& !used_names(uc.events@).contains(u.name)
            &&& !(protect_core && is_core(u.name))
            &&& u.status == PackageStatus::Unused
        } by {
            if j < r.len() {
                assert(unused_list(ps, uc, protect_core, days, now)[j] == r[j]);
            }
        }
    }
}

/// Keeping the unused packages that nothing used depends on only drops packages: each
/// one kept is an unused package (a core one marked system critical), and none of them
/// is reached from the used packages.
pub proof fn law_with_deps_within_unused(
    us: Seq<UnusedModel>,
    g: Map<Seq<char>, Vec<String>>,
    fm: Map<Seq<char>, String>,
    roots: Seq<Seq<char>>,
)
    ensures
        not_depended_on(us, g, fm, roots).len() <= us.len(),
        forall|j: int| 0 <= j < not_depended_on(us, g, fm, roots).len() ==> {
            let v = #[trigger] not_depended_on(us, g, fm, roots)[j];
            &&& !reachable(g, fm, roots, v.name)
            &&& exists|k: int| 0 <= k < us.len() && us[k].name == v.name && (v == us[k] || (is_core(v.name) && v
                == UnusedModel { status: PackageStatus::SystemCritical, ..us[k] }))
        },
    decreases us.len(),
{
    if us.len() > 0 {
        let q = us.drop_last();
        law_with_deps_within_unused(q, g, fm, roots);
        let r = not_depended_on(q, g, fm, roots);
        assert forall|j: int| 0 <= j < not_depended_on(us, g, fm, roots).len() implies {
            let v = #[trigger] not_depended_on(us, g, fm, roots)[j];
            &&& !reachable(g, fm, roots, v.name)
            &&& exists|k: int| 0 <= k < us.len() && us[k].name == v.name && (v == us[k] || (is_core(v.name) && v
                == UnusedModel { status: PackageStatus::SystemCritical, ..us[k] }))
        } by {
            let v = not_depended_on(us, g, fm, roots)[j];
            if j < r.len() {
                assert(v == r[j]);
                let k = choose|k: int| 0 <= k < q.len() && q[k].name == v.name && (v == q[k] || (is_core(v.name) && v
                    == UnusedModel { status: PackageStatus::SystemCritical, ..q[k] }));
                assert(us[k] == q[k]);
            } else {
                let k = us.len() - 1;
                assert(us[k] == us.last());
            }
        }
    }
}

/// The usage cache built from some events answers as the events themselves: the events
/// of a package are its events in the log, so its last use and its number of uses are
/// those the log gives.
pub proof fn law_usage_cache_agrees_with_log(c: UsageCache, events: Seq<PackageEvent>, now: i64, p: Seq<char>)
    requires
        usage_cache_of(c, events, now),
    ensures
        c.package_events(p) == events_of(events, p),
        max_timestamp(use_events(c.package_events(p))) == max_timestamp(use_events(events_of(events, p))),
        use_events(c.package_events(p)).len() == use_events(events_of(events, p)).len(),
{
}

/// A package has a last use exactly when it has been used at least once.
pub proof fn law_last_use_iff_used(s: Seq<PackageEvent>)
    ensures
        max_timestamp(use_events(s)) is Some <==> use_events(s).len() > 0,
    decreases s.len(),
{
    lemma_max_timestamp_some(use_events(s));
}

/// A sequence of events has a latest timestamp exactly when it is not empty.
proof fn lemma_max_timestamp_some(s: Seq<PackageEvent>)
    ensures
        max_timestamp(s) is Some <==> s.len() > 0,
{
}

/// Once dependencies are recorded for a name, looking up a package that resolves to that
/// name gives them.
pub proof fn law_lookup_after_record(
    g: Map<Seq<char>, Vec<String>>,
    fm: Map<Seq<char>, String>,
    name: Seq<char>,
    deps: Vec<String>,
    package: Seq<char>,
)
    requires
        resolved(fm, package) == name,
    ensures
        g.insert(name, deps).contains_key(resolved(fm, package)),
        deps_of(g.insert(name, deps), fm, package) == views_of(deps@),
{
}

} // verus!
