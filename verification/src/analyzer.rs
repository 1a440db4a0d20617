//! Analyses over the tracker: reports on unused packages, removal risk, comparison
//! with another package list, and the dependency graph of a package.

use vstd::prelude::*;
use crate::cache::models_of;
use crate::graph::{contains_name, deps_of, is_core, needed_unknown, reachable, resolved};
use crate::models::{
    AnalysisResult, Comparison, Package, PackageEvent, PackageModel, PackageSource, PackageStatus,
    RiskLevel, UnusedModel, UnusedPackage, VersionDiff, clone_opt_string, opt_view, used_order,
};
use crate::stats::{
    count_from, pick, row_keys, rows_view, size_or_zero, source_rows, sources_in_order, total_size_of,
};
use crate::sort::stable_order;
use crate::strmap::{StrMap, views_of};
use crate::text::{decimal, join_with, owned, push_joined, push_repeat, push_str, push_u64, repeat_char, str_eq};
use crate::tracker::{Tracker, dependency_cache_of, deps_complete, usage_cache_of, first_named, names_of, not_depended_on, unused_list, unused_models};
use crate::utils::{format_size, format_size_spec};

verus! {

broadcast use vstd::string::group_string_axioms;

/// Analyses over a tracker.
pub struct Analyzer {
    pub tracker: Tracker,
}

/// What `analyze` reports.
#[derive(Debug)]
pub struct AnalysisReport {
    pub total_packages: usize,
    pub used_packages: usize,
    pub unused_packages: usize,
    pub total_size: u64,
    pub potential_savings: u64,
    pub packages_by_source: Vec<(String, usize)>,
    pub large_unused: Vec<UnusedPackage>,
    pub recommendations: Vec<String>,
}

/// The packages kept as critical to the system: never offered for removal.
pub open spec fn critical_names() -> Seq<Seq<char>> {
    seq![
        "bash"@, "coreutils"@, "findutils"@, "grep"@, "sed"@, "awk"@, "tar"@, "gzip"@, "xz-utils"@,
        "termux-tools"@, "termux-exec"@, "termux-keyring"@, "termux-am"@, "termux-api"@,
        "apk-tools"@, "apt"@, "dpkg"@, "busybox"@, "ca-certificates"@, "openssl"@, "libc++"@,
        "libandroid-support"@,
    ]
}

/// Whether a package is critical to the system.
pub open spec fn is_critical(name: Seq<char>) -> bool {
    critical_names().contains(name)
}

/// The sum of the known sizes of unused packages.
pub open spec fn unused_size(us: Seq<UnusedModel>) -> nat
    decreases us.len(),
{
    if us.len() == 0 {
        0
    } else {
        unused_size(us.drop_last()) + match us.last().size {
            Some(s) => s as nat,
            None => 0nat,
        }
    }
}

/// The size above which an unused package counts as large: 10 MiB.
pub open spec fn large_limit() -> nat {
    10 * 1024 * 1024
}

/// The unused packages larger than 10 MiB, in order.
pub open spec fn large_unused(us: Seq<UnusedModel>) -> Seq<UnusedModel>
    decreases us.len(),
{
    if us.len() == 0 {
        Seq::empty()
    } else {
        let r = large_unused(us.drop_last());
        match us.last().size {
            Some(s) => if s > large_limit() {
                r.push(us.last())
            } else {
                r
            },
            None => r,
        }
    }
}

/// The names of unused packages, in order.
pub open spec fn unused_names(us: Seq<UnusedModel>) -> Seq<Seq<char>> {
    us.map_values(|u: UnusedModel| u.name)
}

/// The advice given for the unused packages `us`.
pub open spec fn recommendations(us: Seq<UnusedModel>) -> Seq<Seq<char>> {
    if us.len() == 0 {
        Seq::empty()
    } else {
        let first = "Remove "@ + decimal(us.len()) + " unused packages to free up "@ + format_size_spec(unused_size(us));
        let large = large_unused(us);
        if large.len() == 0 {
            seq![first]
        } else {
            seq![first, "Start with large packages: "@ + join_with(unused_names(large), ", "@)]
        }
    }
}

/// For each source of `ps`, in order of first appearance: its name and its number of packages.
pub open spec fn source_counts(ps: Seq<PackageModel>) -> Seq<(Seq<char>, nat)> {
    sources_in_order(ps).map_values(|s: PackageSource| (s.name(), count_from(ps, s)))
}

/// The unused packages of `us` marked system critical, by name.
pub open spec fn critical_of(us: Seq<UnusedModel>) -> Seq<Seq<char>>
    decreases us.len(),
{
    if us.len() == 0 {
        Seq::empty()
    } else if us.last().status == PackageStatus::SystemCritical {
        critical_of(us.drop_last()).push(us.last().name)
    } else {
        critical_of(us.drop_last())
    }
}

/// Whether a status keeps a package from removal as protected.
pub open spec fn is_protected_status(s: PackageStatus) -> bool {
    s == PackageStatus::Protected || s == PackageStatus::Dependency
}

/// The unused packages of `us` that are protected or dependencies.
pub open spec fn protected_of(us: Seq<UnusedModel>) -> Seq<UnusedModel>
    decreases us.len(),
{
    if us.len() == 0 {
        Seq::empty()
    } else if us.last().status != PackageStatus::SystemCritical && is_protected_status(us.last().status) {
        protected_of(us.drop_last()).push(us.last())
    } else {
        protected_of(us.drop_last())
    }
}

/// The unused packages of `us` that are neither critical nor protected.
pub open spec fn safe_of(us: Seq<UnusedModel>) -> Seq<UnusedModel>
    decreases us.len(),
{
    if us.len() == 0 {
        Seq::empty()
    } else if us.last().status != PackageStatus::SystemCritical && !is_protected_status(us.last().status) {
        safe_of(us.drop_last()).push(us.last())
    } else {
        safe_of(us.drop_last())
    }
}

/// The risk of removing the unused packages `us`.
pub open spec fn risk_of(us: Seq<UnusedModel>) -> RiskLevel {
    if critical_of(us).len() > 0 {
        RiskLevel::Critical
    } else if protected_of(us).len() > 0 {
        RiskLevel::High
    } else if safe_of(us).len() > 0 && unused_size(safe_of(us)) > 100 * 1024 * 1024 {
        RiskLevel::Medium
    } else {
        RiskLevel::Low
    }
}

/// The unused packages of `us` that may safely be removed: not dependencies and not
/// critical to the system.
pub open spec fn removable_of(us: Seq<UnusedModel>) -> Seq<UnusedModel>
    decreases us.len(),
{
    if us.len() == 0 {
        Seq::empty()
    } else if us.last().status != PackageStatus::Dependency && !is_critical(us.last().name) {
        removable_of(us.drop_last()).push(us.last())
    } else {
        removable_of(us.drop_last())
    }
}

/// The unused packages found by `find_unused_with_deps` for the tracker `t`.
pub open spec fn candidates(t: Tracker, days: u32, now: i64) -> Seq<UnusedModel> {
    not_depended_on(
        unused_list(t.installed(), t.usage_cache, t.config@.protect_core, days, now),
        t.graph(),
        t.files(),
        t.used(),
    )
}

/// The sizes of the unused packages stay within the sizes of the installed ones.
proof fn lemma_unused_size_bound(ps: Seq<PackageModel>, t: Tracker, days: u32, now: i64)
    ensures
        unused_size(unused_list(ps, t.usage_cache, t.config@.protect_core, days, now)) <= total_size_of(ps),
    decreases ps.len(),
{
    if ps.len() > 0 {
        lemma_unused_size_bound(ps.drop_last(), t, days, now);
        let r = unused_list(ps.drop_last(), t.usage_cache, t.config@.protect_core, days, now);
        match crate::tracker::unused_entry(ps.last(), t.usage_cache, t.config@.protect_core, days, now) {
            Some(u) => {
                assert(r.push(u).drop_last() =~= r);
            },
            None => {},
        }
    }
}

/// Keeping some unused packages keeps their sizes within the total.
proof fn lemma_kept_size_bound(us: Seq<UnusedModel>, t: Tracker)
    ensures
        unused_size(not_depended_on(us, t.graph(), t.files(), t.used())) <= unused_size(us),
        unused_size(safe_of(us)) <= unused_size(us),
        unused_size(large_unused(us)) <= unused_size(us),
    decreases us.len(),
{
    if us.len() > 0 {
        lemma_kept_size_bound(us.drop_last(), t);
        let r = not_depended_on(us.drop_last(), t.graph(), t.files(), t.used());
        let u = us.last();
        assert(r.push(u).drop_last() =~= r);
        assert(r.push(UnusedModel { status: PackageStatus::SystemCritical, ..u }).drop_last() =~= r);
        let sr = safe_of(us.drop_last());
        assert(sr.push(u).drop_last() =~= sr);
        let lr = large_unused(us.drop_last());
        assert(lr.push(u).drop_last() =~= lr);
    }
}

/// The sum of the known sizes of unused packages, when it stays within `bound`.
fn sum_unused_sizes(us: &Vec<UnusedPackage>, Ghost(bound): Ghost<nat>) -> (r: u64)
    requires
        unused_size(unused_models(us@)) <= bound <= u64::MAX,
    ensures
        r == unused_size(unused_models(us@)),
{
    let ghost m = unused_models(us@);
    let mut total: u64 = 0;
    let mut i: usize = 0;
    while i < us.len()
        invariant
            i <= us@.len(),
            m == unused_models(us@),
            unused_size(m) <= bound <= u64::MAX,
            total == unused_size(m.take(i as int)),
        decreases us@.len() - i,
    {
        assert(m.take(i + 1).drop_last() =~= m.take(i as int));
        proof {
            lemma_unused_size_prefix(m, i + 1);
        }
        match us[i].size {
            Some(s) => {
                total = total + s;
            },
            None => {},
        }
        i = i + 1;
    }
    assert(m.take(m.len() as int) =~= m);
    total
}

/// The sizes of a prefix stay within the sizes of the whole.
proof fn lemma_unused_size_prefix(us: Seq<UnusedModel>, i: int)
    requires
        0 <= i <= us.len(),
    ensures
        unused_size(us.take(i)) <= unused_size(us),
    decreases us.len(),
{
    if i == us.len() {
        assert(us.take(i) =~= us);
    } else {
        lemma_unused_size_prefix(us.drop_last(), i);
        assert(us.drop_last().take(i) =~= us.take(i));
    }
}

/// Whether `name` is critical to the system.
pub fn is_system_critical(name: &str) -> (b: bool)
    ensures
        b == is_critical(name@),
{
    let mut v: Vec<String> = Vec::new();
    v.push(owned("bash"));
    v.push(owned("coreutils"));
    v.push(owned("findutils"));
    v.push(owned("grep"));
    v.push(owned("sed"));
    v.push(owned("awk"));
    v.push(owned("tar"));
    v.push(owned("gzip"));
    v.push(owned("xz-utils"));
    v.push(owned("termux-tools"));
    v.push(owned("termux-exec"));
    v.push(owned("termux-keyring"));
    v.push(owned("termux-am"));
    v.push(owned("termux-api"));
    v.push(owned("apk-tools"));
    v.push(owned("apt"));
    v.push(owned("dpkg"));
    v.push(owned("busybox"));
    v.push(owned("ca-certificates"));
    v.push(owned("openssl"));
    v.push(owned("libc++"));
    v.push(owned("libandroid-support"));
    assert(views_of(v@) =~= critical_names());
    contains_name(&v, name)
}

impl Analyzer {
    /// An analyzer over `tracker`.
    pub fn new(tracker: Tracker) -> (a: Self)
        ensures
            a.tracker == tracker,
    {
        Analyzer { tracker }
    }

    /// The tracker analysed.
    pub fn get_tracker(&self) -> (t: &Tracker)
        ensures
            *t == self.tracker,
    {
        &self.tracker
    }

    /// Rebuilds the caches of the tracker analysed (see `Tracker::rebuild_caches`).
    pub fn rebuild_caches(&mut self, events: Vec<PackageEvent>, deps_map: &StrMap<Vec<String>>, now: i64)
        requires
            old(self).tracker.wf(),
            deps_map.wf(),
        ensures
            final(self).tracker.wf(),
            usage_cache_of(final(self).tracker.usage_cache, events@, now),
            dependency_cache_of(final(self).tracker.dependency_cache, old(self).tracker.installed(), deps_map.map(), now),
            final(self).tracker.last_rebuild == now,
            final(self).tracker.config == old(self).tracker.config,
            final(self).tracker.cache_manager == old(self).tracker.cache_manager,
            final(self).tracker.file_map_cache == old(self).tracker.file_map_cache,
    {
        self.tracker.rebuild_caches(events, deps_map, now);
    }

    /// See `Tracker::find_unused`.
    pub fn find_unused(&self, days_threshold: u32, now: i64) -> (r: Vec<UnusedPackage>)
        requires
            self.tracker.wf(),
        ensures
            unused_models(r@) == unused_list(
                self.tracker.installed(),
                self.tracker.usage_cache,
                self.tracker.config@.protect_core,
                days_threshold,
                now,
            ),
    {
        self.tracker.find_unused(days_threshold, now)
    }

    /// See `Tracker::find_unused_with_deps`.
    pub fn find_unused_with_deps(&self, days_threshold: u32, now: i64) -> (r: Result<Vec<UnusedPackage>, Vec<String>>)
        requires
            self.tracker.wf(),
        ensures
            r is Ok == deps_complete(self.tracker.graph(), self.tracker.files(), self.tracker.used()),
            r matches Ok(v) ==> unused_models(v@) == candidates(self.tracker, days_threshold, now),
            r matches Err(m) ==> m@.len() > 0 && forall|n: Seq<char>| #[trigger] views_of(m@).contains(n)
                ==> needed_unknown(self.tracker.graph(), self.tracker.files(), self.tracker.used(), n),
    {
        self.tracker.find_unused_with_deps(days_threshold, now)
    }

    /// A report on the unused packages (as `find_unused_with_deps`): counts, sizes, the
    /// packages by source, the large unused ones and what to do; or the names whose
    /// dependencies are needed first.
    #[verifier::rlimit(30)]
    pub fn analyze(&self, days_threshold: u32, now: i64) -> (r: Result<AnalysisReport, Vec<String>>)
        requires
            self.tracker.wf(),
            total_size_of(self.tracker.installed()) <= u64::MAX,
        ensures
            r is Ok == deps_complete(self.tracker.graph(), self.tracker.files(), self.tracker.used()),
            r matches Err(m) ==> m@.len() > 0 && forall|n: Seq<char>| #[trigger] views_of(m@).contains(n)
                ==> needed_unknown(self.tracker.graph(), self.tracker.files(), self.tracker.used(), n),
            r matches Ok(rep) ==> {
                let us = candidates(self.tracker, days_threshold, now);
                let ps = self.tracker.installed();
                &&& rep.total_packages == ps.len()
                &&& rep.used_packages == self.tracker.used().len()
                &&& rep.unused_packages == us.len()
                &&& rep.total_size == total_size_of(ps)
                &&& rep.potential_savings == unused_size(us)
                &&& rep.packages_by_source@.map_values(|e: (String, usize)| (e.0@, e.1 as nat)) == source_counts(ps)
                &&& unused_models(rep.large_unused@) == large_unused(us)
                &&& views_of(rep.recommendations@) == recommendations(us)
            },
    {
        let unused = match self.find_unused_with_deps(days_threshold, now) {
            Ok(v) => v,
            Err(m) => {
                return Err(m);
            },
        };
        let ghost us = unused_models(unused@);
        let all = self.tracker.get_installed_packages_all();
        let used = self.tracker.get_used_packages();
        let total = match self.tracker.total_installed_size() {
            Some(t) => t,
            None => 0,
        };
        proof {
            lemma_unused_size_bound(self.tracker.installed(), self.tracker, days_threshold, now);
            lemma_kept_size_bound(
                unused_list(self.tracker.installed(), self.tracker.usage_cache, self.tracker.config@.protect_core, days_threshold, now),
                self.tracker,
            );
            lemma_kept_size_bound(us, self.tracker);
        }
        let savings = sum_unused_sizes(&unused, Ghost(total_size_of(self.tracker.installed())));
        let by_source = source_count_rows(&all);
        let mut large: Vec<UnusedPackage> = Vec::new();
        let mut i: usize = 0;
        while i < unused.len()
            invariant
                i <= unused@.len(),
                us == unused_models(unused@),
                unused_models(large@) == large_unused(us.take(i as int)),
            decreases unused@.len() - i,
        {
            assert(us.take(i + 1).drop_last() =~= us.take(i as int));
            assert(us.take(i + 1).last() == unused@[i as int]@);
            match unused[i].size {
                Some(s) => {
                    if s > 10 * 1024 * 1024 {
                        let ghost before = unused_models(large@);
                        large.push(unused[i].clone());
                        assert(unused_models(large@) =~= before.push(unused@[i as int]@));
                    }
                },
                None => {},
            }
            i = i + 1;
        }
        assert(us.take(us.len() as int) =~= us);
        let mut recs: Vec<String> = Vec::new();
        if unused.len() > 0 {
            let mut first = owned("Remove ");
            push_u64(&mut first, unused.len() as u64);
            push_str(&mut first, " unused packages to free up ");
            let size_text = format_size(savings);
            push_str(&mut first, size_text.as_str());
            recs.push(first);
            if large.len() > 0 {
                let mut names: Vec<String> = Vec::new();
                let mut k: usize = 0;
                while k < large.len()
                    invariant
                        k <= large@.len(),
                        views_of(names@) == unused_names(unused_models(large@)).take(k as int),
                    decreases large@.len() - k,
                {
                    let ghost before = views_of(names@);
                    names.push(large[k].name.clone());
                    assert(views_of(names@) =~= before.push(large@[k as int].name@));
                    assert(unused_names(unused_models(large@))[k as int] == large@[k as int].name@);
                    assert(unused_names(unused_models(large@)).take(k + 1) =~= unused_names(unused_models(large@)).take(
                        k as int,
                    ).push(large@[k as int].name@));
                    assert(views_of(names@) =~= unused_names(unused_models(large@)).take(k + 1));
                    k = k + 1;
                }
                assert(unused_names(unused_models(large@)).take(large@.len() as int) =~= unused_names(
                    unused_models(large@),
                ));
                let mut second = owned("Start with large packages: ");
                push_joined(&mut second, &names, ", ");
                recs.push(second);
            }
        }
        assert(views_of(recs@) =~= recommendations(us));
        Ok(
            AnalysisReport {
                total_packages: all.len(),
                used_packages: used.len(),
                unused_packages: unused.len(),
                total_size: total,
                potential_savings: savings,
                packages_by_source: by_source,
                large_unused: large,
                recommendations: recs,
            },
        )
    }

    /// The unused packages (as `find_unused_with_deps`) split by risk: those critical to
    /// the system (by name), those protected or depended on, and those safe to remove
    /// with the space they free; and the overall risk. Or the names whose dependencies
    /// are needed first.
    pub fn analyze_risk(&self, days_threshold: u32, now: i64) -> (r: Result<AnalysisResult, Vec<String>>)
        requires
            self.tracker.wf(),
            total_size_of(self.tracker.installed()) <= u64::MAX,
        ensures
            r is Ok == deps_complete(self.tracker.graph(), self.tracker.files(), self.tracker.used()),
            r matches Err(m) ==> m@.len() > 0 && forall|n: Seq<char>| #[trigger] views_of(m@).contains(n)
                ==> needed_unknown(self.tracker.graph(), self.tracker.files(), self.tracker.used(), n),
            r matches Ok(res) ==> {
                let us = candidates(self.tracker, days_threshold, now);
                &&& unused_models(res.safe_to_remove@) == safe_of(us)
                &&& unused_models(res.protected@) == protected_of(us)
                &&& views_of(res.system_critical@) == critical_of(us)
                &&& res.total_savings == unused_size(safe_of(us))
                &&& res.risk_level == risk_of(us)
            },
    {
        let unused = match self.find_unused_with_deps(days_threshold, now) {
            Ok(v) => v,
            Err(m) => {
                return Err(m);
            },
        };
        let ghost us = unused_models(unused@);
        proof {
            lemma_unused_size_bound(self.tracker.installed(), self.tracker, days_threshold, now);
            lemma_kept_size_bound(
                unused_list(self.tracker.installed(), self.tracker.usage_cache, self.tracker.config@.protect_core, days_threshold, now),
                self.tracker,
            );
            lemma_kept_size_bound(us, self.tracker);
        }
        let mut safe: Vec<UnusedPackage> = Vec::new();
        let mut protected: Vec<UnusedPackage> = Vec::new();
        let mut critical: Vec<String> = Vec::new();
        let mut i: usize = 0;
        while i < unused.len()
            invariant
                i <= unused@.len(),
                us == unused_models(unused@),
                unused_models(safe@) == safe_of(us.take(i as int)),
                unused_models(protected@) == protected_of(us.take(i as int)),
                views_of(critical@) == critical_of(us.take(i as int)),
            decreases unused@.len() - i,
        {
            let pkg = &unused[i];
            assert(us.take(i + 1).drop_last() =~= us.take(i as int));
            assert(us.take(i + 1).last() == pkg@);
            if pkg.status == PackageStatus::SystemCritical {
                let ghost before = views_of(critical@);
                critical.push(pkg.name.clone());
                assert(views_of(critical@) =~= before.push(pkg.name@));
            } else if pkg.status == PackageStatus::Protected || pkg.status == PackageStatus::Dependency {
                let ghost before = unused_models(protected@);
                protected.push(pkg.clone());
                assert(unused_models(protected@) =~= before.push(pkg@));
            } else {
                let ghost before = unused_models(safe@);
                safe.push(pkg.clone());
                assert(unused_models(safe@) =~= before.push(pkg@));
            }
            i = i + 1;
        }
        assert(us.take(us.len() as int) =~= us);
        let savings = sum_unused_sizes(&safe, Ghost(total_size_of(self.tracker.installed())));
        let risk = if critical.len() > 0 {
            RiskLevel::Critical
        } else if protected.len() > 0 {
            RiskLevel::High
        } else if safe.len() > 0 && savings > 100 * 1024 * 1024 {
            RiskLevel::Medium
        } else {
            RiskLevel::Low
        };
        Ok(
            AnalysisResult {
                safe_to_remove: safe,
                protected,
                system_critical: critical,
                total_savings: savings,
                risk_level: risk,
            },
        )
    }

    /// The unused packages (as `find_unused_with_deps`) that may be removed: not
    /// dependencies and not critical to the system. Or the names whose dependencies are
    /// needed first.
    pub fn get_safe_to_remove(&self, days_threshold: u32, now: i64) -> (r: Result<Vec<UnusedPackage>, Vec<String>>)
        requires
            self.tracker.wf(),
        ensures
            r is Ok == deps_complete(self.tracker.graph(), self.tracker.files(), self.tracker.used()),
            r matches Err(m) ==> m@.len() > 0 && forall|n: Seq<char>| #[trigger] views_of(m@).contains(n)
                ==> needed_unknown(self.tracker.graph(), self.tracker.files(), self.tracker.used(), n),
            r matches Ok(v) ==> unused_models(v@) == removable_of(candidates(self.tracker, days_threshold, now)),
    {
        let unused = match self.find_unused_with_deps(days_threshold, now) {
            Ok(v) => v,
            Err(m) => {
                return Err(m);
            },
        };
        let ghost us = unused_models(unused@);
        let mut safe: Vec<UnusedPackage> = Vec::new();
        let mut i: usize = 0;
        while i < unused.len()
            invariant
                i <= unused@.len(),
                us == unused_models(unused@),
                unused_models(safe@) == removable_of(us.take(i as int)),
            decreases unused@.len() - i,
        {
            let pkg = &unused[i];
            assert(us.take(i + 1).drop_last() =~= us.take(i as int));
            assert(us.take(i + 1).last() == pkg@);
            if pkg.status != PackageStatus::Dependency && !is_system_critical(pkg.name.as_str()) {
                let ghost before = unused_models(safe@);
                safe.push(pkg.clone());
                assert(unused_models(safe@) =~= before.push(pkg@));
            }
            i = i + 1;
        }
        assert(us.take(us.len() as int) =~= us);
        Ok(safe)
    }

    /// The packages only in the current list, those only in `other_list`, the names both
    /// hold (in order of first appearance in the current list), and for each of those
    /// whose first packages differ in version, both versions.
    #[verifier::rlimit(30)]
    pub fn compare(&self, other_list: &Vec<Package>) -> (c: Comparison)
        requires
            self.tracker.wf(),
        ensures
            models_of(c.only_current@) == named_outside(self.tracker.installed(), names_of(models_of(other_list@))),
            models_of(c.only_other@) == named_outside(models_of(other_list@), names_of(self.tracker.installed())),
            views_of(c.common@) == common_names(self.tracker.installed(), models_of(other_list@)),
            c.version_differences@.map_values(|d: VersionDiff| diff_view(d)) == version_diffs(
                common_names(self.tracker.installed(), models_of(other_list@)),
                self.tracker.installed(),
                models_of(other_list@),
            ),
    {
        let current = self.tracker.get_installed_packages_all();
        let ghost cur = models_of(current@);
        let ghost oth = models_of(other_list@);
        let current_names = names_in(&current);
        let other_names = names_in(other_list);
        let only_current = keep_named_outside(&current, &other_names);
        let only_other = keep_named_outside(other_list, &current_names);
        let mut seen: Vec<String> = Vec::new();
        let mut common: Vec<String> = Vec::new();
        let mut i: usize = 0;
        while i < current.len()
            invariant
                i <= current@.len(),
                cur == models_of(current@),
                views_of(other_names@) == names_of(oth),
                views_of(seen@) == distinct_names(cur.take(i as int)),
                views_of(common@) == common_names(cur.take(i as int), oth),
            decreases current@.len() - i,
        {
            let name = &current[i].name;
            let ghost c0 = cur.take(i as int);
            let ghost c1 = cur.take(i + 1);
            assert(c1.drop_last() =~= c0);
            assert(c1.last() == current@[i as int]@);
            let ghost d0 = distinct_names(c0);
            if !contains_name(&seen, name.as_str()) {
                seen.push(name.clone());
                assert(views_of(seen@) =~= d0.push(name@));
                let ghost before = views_of(common@);
                proof {
                    assert(d0.push(name@).drop_last() =~= d0);
                }
                if contains_name(&other_names, name.as_str()) {
                    common.push(name.clone());
                    assert(views_of(common@) =~= before.push(name@));
                }
            }
            i = i + 1;
        }
        assert(cur.take(cur.len() as int) =~= cur);
        let ghost cn = views_of(common@);
        let mut diffs: Vec<VersionDiff> = Vec::new();
        let mut k: usize = 0;
        while k < common.len()
            invariant
                k <= common@.len(),
                cn == views_of(common@),
                cur == models_of(current@),
                oth == models_of(other_list@),
                diffs@.map_values(|d: VersionDiff| diff_view(d)) == version_diffs(cn.take(k as int), cur, oth),
            decreases common@.len() - k,
        {
            let name = &common[k];
            assert(cn.take(k + 1).drop_last() =~= cn.take(k as int));
            assert(cn.take(k + 1).last() == name@);
            match (position_named(&current, name.as_str()), position_named(other_list, name.as_str())) {
                (Some(a), Some(b)) => {
                    let ca = &current[a];
                    let ob = &other_list[b];
                    if !same_opt(&ca.version, &ob.version) {
                        let ghost before = diffs@.map_values(|d: VersionDiff| diff_view(d));
                        diffs.push(
                            VersionDiff {
                                package: name.clone(),
                                current_version: clone_opt_string(&ca.version),
                                other_version: clone_opt_string(&ob.version),
                            },
                        );
                        assert(diffs@.map_values(|d: VersionDiff| diff_view(d)) =~= before.push(
                            (name@, ca@.version, ob@.version),
                        ));
                    }
                },
                _ => {},
            }
            k = k + 1;
        }
        assert(cn.take(cn.len() as int) =~= cn);
        Comparison { only_current, only_other, common, version_differences: diffs }
    }

    /// A summary of the installed packages: counts, total size and the packages by
    /// source (most common first).
    pub fn summary(&self) -> (s: String)
        requires
            self.tracker.wf(),
            total_size_of(self.tracker.installed()) <= u64::MAX,
        ensures
            s@ == summary_text(self.tracker.installed(), self.tracker.used().len()),
    {
        let st = self.tracker.get_stats();
        let mut s = owned("Package Summary\n");
        push_repeat(&mut s, '=', 40);
        push_str(&mut s, "\n");
        push_str(&mut s, "Total packages:   ");
        push_u64(&mut s, st.total_packages as u64);
        push_str(&mut s, "\n");
        push_str(&mut s, "Used packages:    ");
        push_u64(&mut s, st.used_packages as u64);
        push_str(&mut s, "\n");
        push_str(&mut s, "Total size:       ");
        let t = format_size(st.total_size);
        push_str(&mut s, t.as_str());
        push_str(&mut s, "\n");
        push_str(&mut s, "\n");
        push_str(&mut s, "By source:\n");
        let ghost head = s@;
        let ghost rows = rows_view(st.by_source@);
        let mut i: usize = 0;
        while i < st.by_source.len()
            invariant
                i <= st.by_source@.len(),
                rows == rows_view(st.by_source@),
                s@ == head + source_lines(rows.take(i as int)),
            decreases st.by_source@.len() - i,
        {
            let (name, count, size) = &st.by_source[i];
            assert(rows.take(i + 1).drop_last() =~= rows.take(i as int));
            assert(rows.take(i + 1).last() == (name@, *count as nat, *size as nat));
            push_str(&mut s, "  ");
            push_str(&mut s, name.as_str());
            push_str(&mut s, ": ");
            push_u64(&mut s, *count as u64);
            push_str(&mut s, " packages (");
            let z = format_size(*size);
            push_str(&mut s, z.as_str());
            push_str(&mut s, " total)\n");
            assert(s@ =~= head + source_lines(rows.take(i + 1)));
            i = i + 1;
        }
        assert(rows.take(rows.len() as int) =~= rows);
        s
    }
}

/// The packages of `ps` whose names are not among `names`, in order.
pub open spec fn named_outside(ps: Seq<PackageModel>, names: Seq<Seq<char>>) -> Seq<PackageModel>
    decreases ps.len(),
{
    if ps.len() == 0 {
        Seq::empty()
    } else if names.contains(ps.last().name) {
        named_outside(ps.drop_last(), names)
    } else {
        named_outside(ps.drop_last(), names).push(ps.last())
    }
}

/// The names of `ps`, each once, in order of first appearance.
pub open spec fn distinct_names(ps: Seq<PackageModel>) -> Seq<Seq<char>>
    decreases ps.len(),
{
    if ps.len() == 0 {
        Seq::empty()
    } else {
        let r = distinct_names(ps.drop_last());
        if r.contains(ps.last().name) {
            r
        } else {
            r.push(ps.last().name)
        }
    }
}

/// The names that both lists hold, each once, in order of first appearance in `cur`.
pub open spec fn common_names(cur: Seq<PackageModel>, other: Seq<PackageModel>) -> Seq<Seq<char>>
    decreases cur.len(),
{
    if cur.len() == 0 {
        Seq::empty()
    } else {
        let r = common_names(cur.drop_last(), other);
        let n = cur.last().name;
        if !distinct_names(cur.drop_last()).contains(n) && names_of(other).contains(n) {
            r.push(n)
        } else {
            r
        }
    }
}

/// For each of `names`, in order, when the first package of that name in `cur` and in
/// `other` have different versions: the name and both versions.
pub open spec fn version_diffs(
    names: Seq<Seq<char>>,
    cur: Seq<PackageModel>,
    other: Seq<PackageModel>,
) -> Seq<(Seq<char>, Option<Seq<char>>, Option<Seq<char>>)>
    decreases names.len(),
{
    if names.len() == 0 {
        Seq::empty()
    } else {
        let r = version_diffs(names.drop_last(), cur, other);
        let n = names.last();
        match (first_named(cur, n), first_named(other, n)) {
            (Some(c), Some(o)) => if c.version != o.version {
                r.push((n, c.version, o.version))
            } else {
                r
            },
            _ => r,
        }
    }
}

/// A version difference, as mathematical values.
pub open spec fn diff_view(d: VersionDiff) -> (Seq<char>, Option<Seq<char>>, Option<Seq<char>>) {
    (d.package@, opt_view(d.current_version), opt_view(d.other_version))
}

/// The lines listing packages by source in the summary.
pub open spec fn source_lines(rows: Seq<(Seq<char>, nat, nat)>) -> Seq<char>
    decreases rows.len(),
{
    if rows.len() == 0 {
        Seq::empty()
    } else {
        let r = rows.last();
        source_lines(rows.drop_last()) + "  "@ + r.0 + ": "@ + decimal(r.1) + " packages ("@ + format_size_spec(r.2)
            + " total)\n"@
    }
}

/// The summary of the installed packages `ps`, of which `used` are used.
pub open spec fn summary_text(ps: Seq<PackageModel>, used: nat) -> Seq<char> {
    let rows = source_rows(ps);
    "Package Summary\n"@ + repeat_char('=', 40) + "\n"@ + "Total packages:   "@ + decimal(ps.len()) + "\n"@
        + "Used packages:    "@ + decimal(used) + "\n"@ + "Total size:       "@ + format_size_spec(total_size_of(ps))
        + "\n"@ + "\n"@ + "By source:\n"@ + source_lines(pick(rows, stable_order(row_keys(rows), rows.len())))
}

/// The position of the first package of `ps` called `name`.
pub fn position_named(ps: &Vec<Package>, name: &str) -> (r: Option<usize>)
    ensures
        r is Some == first_named(models_of(ps@), name@) is Some,
        r matches Some(i) ==> i < ps@.len() && ps@[i as int]@ == first_named(models_of(ps@), name@).unwrap(),
{
    let ghost m = models_of(ps@);
    let mut i: usize = 0;
    assert(m.skip(0) =~= m);
    while i < ps.len()
        invariant
            i <= ps@.len(),
            m == models_of(ps@),
            first_named(m, name@) == first_named(m.skip(i as int), name@),
        decreases ps@.len() - i,
    {
        assert(m.skip(i as int)[0] == ps@[i as int]@);
        assert(m.skip(i as int).drop_first() =~= m.skip(i + 1));
        if str_eq(ps[i].name.as_str(), name) {
            return Some(i);
        }
        i = i + 1;
    }
    assert(m.skip(i as int).len() == 0);
    None
}

/// Whether two optional strings are equal.
fn same_opt(a: &Option<String>, b: &Option<String>) -> (r: bool)
    ensures
        r == (opt_view(*a) == opt_view(*b)),
{
    match (a, b) {
        (Some(x), Some(y)) => str_eq(x.as_str(), y.as_str()),
        (None, None) => true,
        _ => false,
    }
}

/// The packages of `ps` whose names are not among `names`.
fn keep_named_outside(ps: &Vec<Package>, names: &Vec<String>) -> (r: Vec<Package>)
    ensures
        models_of(r@) == named_outside(models_of(ps@), views_of(names@)),
{
    let ghost m = models_of(ps@);
    let mut r: Vec<Package> = Vec::new();
    let mut i: usize = 0;
    while i < ps.len()
        invariant
            i <= ps@.len(),
            m == models_of(ps@),
            models_of(r@) == named_outside(m.take(i as int), views_of(names@)),
        decreases ps@.len() - i,
    {
        assert(m.take(i + 1).drop_last() =~= m.take(i as int));
        assert(m.take(i + 1).last() == ps@[i as int]@);
        if !contains_name(names, ps[i].name.as_str()) {
            let ghost before = models_of(r@);
            r.push(ps[i].clone());
            assert(models_of(r@) =~= before.push(ps@[i as int]@));
        }
        i = i + 1;
    }
    assert(m.take(m.len() as int) =~= m);
    r
}

/// The names of `ps`, in order.
fn names_in(ps: &Vec<Package>) -> (r: Vec<String>)
    ensures
        views_of(r@) == names_of(models_of(ps@)),
{
    let ghost m = models_of(ps@);
    let mut r: Vec<String> = Vec::new();
    let mut i: usize = 0;
    while i < ps.len()
        invariant
            i <= ps@.len(),
            m == models_of(ps@),
            views_of(r@) == names_of(m.take(i as int)),
        decreases ps@.len() - i,
    {
        let ghost before = views_of(r@);
        r.push(ps[i].name.clone());
        assert(views_of(r@) =~= before.push(ps@[i as int]@.name));
        assert(names_of(m.take(i + 1)) =~= names_of(m.take(i as int)).push(m[i as int].name));
        assert(views_of(r@) =~= names_of(m.take(i + 1)));
        i = i + 1;
    }
    assert(m.take(m.len() as int) =~= m);
    r
}

/// For each source of `packages`, in order of first appearance: its name and its number
/// of packages.
fn source_count_rows(packages: &Vec<Package>) -> (r: Vec<(String, usize)>)
    ensures
        r@.map_values(|e: (String, usize)| (e.0@, e.1 as nat)) == source_counts(models_of(packages@)),
{
    let ghost ps = models_of(packages@);
    let mut groups: Vec<(PackageSource, usize)> = Vec::new();
    let mut i: usize = 0;
    while i < packages.len()
        invariant
            i <= packages@.len(),
            ps == models_of(packages@),
            groups@.len() == sources_in_order(ps.take(i as int)).len(),
            forall|j: int| 0 <= j < groups@.len() ==> {
                let s = sources_in_order(ps.take(i as int))[j];
                &&& #[trigger] groups@[j].0 == s
                &&& groups@[j].1 == count_from(ps.take(i as int), s)
            },
        decreases packages@.len() - i,
    {
        let pkg = &packages[i];
        let ghost p0 = ps.take(i as int);
        let ghost p1 = ps.take(i + 1);
        assert(p1.drop_last() =~= p0);
        assert(p1.last() == pkg@);
        proof {
            crate::stats::lemma_count_bound(p0, pkg.source);
            crate::stats::lemma_sources_distinct(p0);
        }
        let mut j: usize = 0;
        let mut found = false;
        while j < groups.len() && !found
            invariant
                j <= groups@.len(),
                !found ==> forall|t: int| 0 <= t < j ==> groups@[t].0 != pkg.source,
                found ==> j > 0 && groups@[j - 1].0 == pkg.source,
            decreases groups@.len() - j, if found { 0int } else { 1int },
        {
            if groups[j].0 == pkg.source {
                found = true;
            }
            j = j + 1;
        }
        let ghost so = sources_in_order(p0);
        if found {
            let k = j - 1;
            let (src, c) = groups[k];
            assert(so[k as int] == pkg.source);
            assert(so.contains(pkg.source));
            groups.set(k, (src, c + 1));
            proof {
                assert(sources_in_order(p1) == so);
                assert forall|j: int| 0 <= j < groups@.len() implies {
                    let s = sources_in_order(p1)[j];
                    &&& #[trigger] groups@[j].0 == s
                    &&& groups@[j].1 == count_from(p1, s)
                } by {
                    if j != k {
                        assert(so[j] != so[k as int]);
                    }
                }
            }
        } else {
            assert(!so.contains(pkg.source)) by {
                if so.contains(pkg.source) {
                    let q = so.index_of(pkg.source);
                    assert(groups@[q].0 == so[q]);
                }
            }
            groups.push((pkg.source, 1));
            proof {
                crate::stats::lemma_absent_source(p0, pkg.source);
                assert(sources_in_order(p1) == so.push(pkg.source));
                assert forall|j: int| 0 <= j < groups@.len() implies {
                    let s = sources_in_order(p1)[j];
                    &&& #[trigger] groups@[j].0 == s
                    &&& groups@[j].1 == count_from(p1, s)
                } by {
                    if j < so.len() {
                        assert(so[j] != pkg.source);
                    }
                }
            }
        }
        i = i + 1;
    }
    assert(ps.take(ps.len() as int) =~= ps);
    let mut r: Vec<(String, usize)> = Vec::new();
    let mut g: usize = 0;
    while g < groups.len()
        invariant
            g <= groups@.len(),
            groups@.len() == sources_in_order(ps).len(),
            forall|j: int| 0 <= j < groups@.len() ==> {
                let s = sources_in_order(ps)[j];
                &&& #[trigger] groups@[j].0 == s
                &&& groups@[j].1 == count_from(ps, s)
            },
            r@.map_values(|e: (String, usize)| (e.0@, e.1 as nat)) == source_counts(ps).take(g as int),
        decreases groups@.len() - g,
    {
        let (src, c) = groups[g];
        let ghost before = r@.map_values(|e: (String, usize)| (e.0@, e.1 as nat));
        let name = src.to_string();
        r.push((name, c));
        assert(source_counts(ps)[g as int] == (src.name(), c as nat));
        assert(r@.map_values(|e: (String, usize)| (e.0@, e.1 as nat)) =~= before.push((src.name(), c as nat)));
        assert(source_counts(ps).take(g + 1) =~= source_counts(ps).take(g as int).push(source_counts(ps)[g as int]));
        assert(r@.map_values(|e: (String, usize)| (e.0@, e.1 as nat)) =~= source_counts(ps).take(g + 1));
        g = g + 1;
    }
    assert(source_counts(ps).take(source_counts(ps).len() as int) =~= source_counts(ps));
    r
}

/// What may safely be removed is never a dependency and never critical to the system,
/// and is among the candidates.
pub proof fn law_safe_to_remove_excludes(us: Seq<UnusedModel>)
    ensures
        forall|j: int| 0 <= j < removable_of(us).len() ==> {
            let u = #[trigger] removable_of(us)[j];
            &&& u.status != PackageStatus::Dependency
            &&& !is_critical(u.name)
            &&& us.contains(u)
        },
    decreases us.len(),
{
    if us.len() > 0 {
        let q = us.drop_last();
        law_safe_to_remove_excludes(q);
        let r = removable_of(q);
        assert forall|j: int| 0 <= j < removable_of(us).len() implies {
            let u = #[trigger] removable_of(us)[j];
            &&& u.status != PackageStatus::Dependency
            &&& !is_critical(u.name)
            &&& us.contains(u)
        } by {
            let u = removable_of(us)[j];
            if j < r.len() {
                assert(u == r[j]);
                let k = q.index_of(u);
                assert(us[k] == q[k]);
            } else {
                assert(us[us.len() - 1] == us.last());
            }
        }
    }
}

/// A candidate list has a critical name exactly when one of its packages is marked
/// system critical; it has a protected one exactly when a package not marked critical
/// is marked protected or dependency; and when no package is marked either way, all of
/// them are safe.
proof fn lemma_risk_groups(us: Seq<UnusedModel>)
    ensures
        critical_of(us).len() > 0 <==> exists|i: int| 0 <= i < us.len() && (#[trigger] us[i]).status
            == PackageStatus::SystemCritical,
        protected_of(us).len() > 0 <==> exists|i: int|
            0 <= i < us.len() && (#[trigger] us[i]).status != PackageStatus::SystemCritical && (us[i].status
                == PackageStatus::Protected || us[i].status == PackageStatus::Dependency),
        (forall|i: int|
            0 <= i < us.len() ==> (#[trigger] us[i]).status != PackageStatus::SystemCritical && us[i].status
                != PackageStatus::Protected && us[i].status != PackageStatus::Dependency) ==> safe_of(us) == us,
    decreases us.len(),
{
    if us.len() > 0 {
        let q = us.drop_last();
        lemma_risk_groups(q);
        let l = us.last();
        assert(us[us.len() - 1] == l);
        assert forall|i: int| 0 <= i < q.len() implies #[trigger] q[i] == us[i] by {}
        if critical_of(us).len() > 0 && l.status != PackageStatus::SystemCritical {
            let i = choose|i: int| 0 <= i < q.len() && (#[trigger] q[i]).status == PackageStatus::SystemCritical;
            assert(us[i] == q[i]);
        }
        if (exists|i: int| 0 <= i < us.len() && (#[trigger] us[i]).status == PackageStatus::SystemCritical)
            && l.status != PackageStatus::SystemCritical {
            let i = choose|i: int| 0 <= i < us.len() && (#[trigger] us[i]).status == PackageStatus::SystemCritical;
            assert(q[i] == us[i]);
        }
        let protect = |m: UnusedModel|
            m.status != PackageStatus::SystemCritical && (m.status == PackageStatus::Protected || m.status
                == PackageStatus::Dependency);
        if protected_of(us).len() > 0 && !protect(l) {
            let i = choose|i: int|
                0 <= i < q.len() && (#[trigger] q[i]).status != PackageStatus::SystemCritical && (q[i].status
                    == PackageStatus::Protected || q[i].status == PackageStatus::Dependency);
            assert(us[i] == q[i]);
        }
        if (exists|i: int|
            0 <= i < us.len() && (#[trigger] us[i]).status != PackageStatus::SystemCritical && (us[i].status
                == PackageStatus::Protected || us[i].status == PackageStatus::Dependency)) && !protect(l) {
            let i = choose|i: int|
                0 <= i < us.len() && (#[trigger] us[i]).status != PackageStatus::SystemCritical && (us[i].status
                    == PackageStatus::Protected || us[i].status == PackageStatus::Dependency);
            assert(q[i] == us[i]);
        }
        if forall|i: int|
            0 <= i < us.len() ==> (#[trigger] us[i]).status != PackageStatus::SystemCritical && us[i].status
                != PackageStatus::Protected && us[i].status != PackageStatus::Dependency {
            assert(safe_of(q) == q);
            assert(us =~= q.push(l));
        }
    }
}

/// The risk of removing candidates: critical when any is marked system critical; else
/// high when any is protected or a dependency; else, with every candidate safe, medium
/// exactly when they free more than 100 MiB together, and low otherwise.
pub proof fn law_risk_levels(us: Seq<UnusedModel>)
    ensures
        (exists|i: int| 0 <= i < us.len() && (#[trigger] us[i]).status == PackageStatus::SystemCritical) ==> risk_of(
            us,
        ) == RiskLevel::Critical,
        (forall|i: int| 0 <= i < us.len() ==> (#[trigger] us[i]).status != PackageStatus::SystemCritical) && (exists|
            i: int,
        |
            0 <= i < us.len() && ((#[trigger] us[i]).status == PackageStatus::Protected || us[i].status
                == PackageStatus::Dependency)) ==> risk_of(us) == RiskLevel::High,
        (forall|i: int|
            0 <= i < us.len() ==> (#[trigger] us[i]).status != PackageStatus::SystemCritical && us[i].status
                != PackageStatus::Protected && us[i].status != PackageStatus::Dependency) ==> {
            &&& (risk_of(us) == RiskLevel::Medium <==> unused_size(us) > 104857600)
            &&& (risk_of(us) == RiskLevel::Low <==> unused_size(us) <= 104857600)
        },
{
    lemma_risk_groups(us);
    if (forall|i: int| 0 <= i < us.len() ==> (#[trigger] us[i]).status != PackageStatus::SystemCritical) && (exists|
        i: int,
    |
        0 <= i < us.len() && ((#[trigger] us[i]).status == PackageStatus::Protected || us[i].status
            == PackageStatus::Dependency)) {
        let i = choose|i: int|
            0 <= i < us.len() && ((#[trigger] us[i]).status == PackageStatus::Protected || us[i].status
                == PackageStatus::Dependency);
        assert(us[i].status != PackageStatus::SystemCritical);
    }
    if forall|i: int|
        0 <= i < us.len() ==> (#[trigger] us[i]).status != PackageStatus::SystemCritical && us[i].status
            != PackageStatus::Protected && us[i].status != PackageStatus::Dependency {
        if unused_size(us) > 104857600 {
            assert(us.len() > 0);
        }
    }
}

/// The risk analysis splits the candidates without losing or adding any: those critical
/// to the system, those protected and those safe add up to all of them.
pub proof fn law_risk_partitions(us: Seq<UnusedModel>)
    ensures
        critical_of(us).len() + protected_of(us).len() + safe_of(us).len() == us.len(),
    decreases us.len(),
{
    if us.len() > 0 {
        law_risk_partitions(us.drop_last());
    }
}

/// Each reported version difference is real: its name is one of `names`, both lists hold
/// a package of that name, the versions reported are those of the first such package in
/// each list, and they differ. And every name of `names` whose first packages in the two
/// lists differ in version is reported.
pub proof fn law_version_diffs_differ(names: Seq<Seq<char>>, cur: Seq<PackageModel>, other: Seq<PackageModel>)
    ensures
        forall|j: int| 0 <= j < version_diffs(names, cur, other).len() ==> {
            let d = #[trigger] version_diffs(names, cur, other)[j];
            &&& d.1 != d.2
            &&& names.contains(d.0)
            &&& first_named(cur, d.0) matches Some(c) && c.version == d.1
            &&& first_named(other, d.0) matches Some(o) && o.version == d.2
        },
        forall|k: int| 0 <= k < names.len() ==> (first_named(cur, #[trigger] names[k]) matches Some(c) && first_named(other, names[k]) matches Some(o) && c.version != o.version) ==> exists|j: int|
            0 <= j < version_diffs(names, cur, other).len() && version_diffs(names, cur, other)[j].0 == names[k],
    decreases names.len(),
{
    if names.len() > 0 {
        let q = names.drop_last();
        law_version_diffs_differ(q, cur, other);
        let r = version_diffs(q, cur, other);
        let v = version_diffs(names, cur, other);
        let n = names.last();
        assert(names[names.len() - 1] == n);
        assert forall|j: int| 0 <= j < v.len() implies {
            let d = #[trigger] v[j];
            &&& d.1 != d.2
            &&& names.contains(d.0)
            &&& first_named(cur, d.0) matches Some(c) && c.version == d.1
            &&& first_named(other, d.0) matches Some(o) && o.version == d.2
        } by {
            if j < r.len() {
                assert(v[j] == r[j]);
                let k = q.index_of(r[j].0);
                assert(names[k] == q[k]);
            }
        }
        assert forall|k: int| 0 <= k < names.len() && (first_named(cur, #[trigger] names[k]) matches Some(c) && first_named(other, names[k]) matches Some(o) && c.version != o.version) implies exists|j: int|
            0 <= j < v.len() && v[j].0 == names[k] by {
            if k < q.len() {
                assert(q[k] == names[k]);
                let j = choose|j: int| 0 <= j < r.len() && r[j].0 == q[k];
                assert(v[j] == r[j]);
            } else {
                assert(v[v.len() - 1].0 == n);
            }
        }
    }
}

/// A package only in the current list has a name the other list lacks, and a common
/// name is held by both lists.
pub proof fn law_compare_sides(cur: Seq<PackageModel>, other: Seq<PackageModel>)
    ensures
        forall|j: int| 0 <= j < named_outside(cur, names_of(other)).len() ==> !names_of(other).contains(
            #[trigger] named_outside(cur, names_of(other))[j].name,
        ),
        forall|j: int| 0 <= j < common_names(cur, other).len() ==> names_of(other).contains(
            #[trigger] common_names(cur, other)[j],
        ) && names_of(cur).contains(common_names(cur, other)[j]),
    decreases cur.len(),
{
    if cur.len() > 0 {
        let q = cur.drop_last();
        law_compare_sides(q, other);
        let a = named_outside(q, names_of(other));
        assert forall|j: int| 0 <= j < named_outside(cur, names_of(other)).len() implies !names_of(other).contains(
            #[trigger] named_outside(cur, names_of(other))[j].name,
        ) by {
            if j < a.len() {
                assert(named_outside(cur, names_of(other))[j] == a[j]);
            }
        }
        let c = common_names(q, other);
        assert forall|j: int| 0 <= j < common_names(cur, other).len() implies names_of(other).contains(
            #[trigger] common_names(cur, other)[j],
        ) && names_of(cur).contains(common_names(cur, other)[j]) by {
            let n = common_names(cur, other)[j];
            if j < c.len() {
                assert(n == c[j]);
                let t = names_of(q).index_of(n);
                assert(names_of(cur)[t] == n);
            } else {
                assert(names_of(cur)[cur.len() - 1] == n);
            }
        }
    }
}

} // verus!
