//! Statistics over the installed packages and the activity log.

use vstd::prelude::*;
use crate::cache::models_of;
use crate::models::{Package, PackageEvent, PackageModel, PackageSource, Stats, used_order};
use crate::sort::{stable_order, stable_order_of};
use crate::strmap::views_of;
use crate::models::action_is;
use crate::tracker::Tracker;

verus! {

broadcast use vstd::string::group_string_axioms;

/// The size of a package, 0 when unknown.
pub open spec fn size_or_zero(p: PackageModel) -> nat {
    match p.size {
        Some(s) => s as nat,
        None => 0,
    }
}

/// The installed date of a package, 0 when unknown.
pub open spec fn date_or_zero(p: PackageModel) -> int {
    match p.installed_date {
        Some(d) => d as int,
        None => 0,
    }
}

/// The sum of the known sizes of `ps`.
pub open spec fn total_size_of(ps: Seq<PackageModel>) -> nat
    decreases ps.len(),
{
    if ps.len() == 0 {
        0
    } else {
        total_size_of(ps.drop_last()) + size_or_zero(ps.last())
    }
}

/// The sources of `ps`, each once, in order of first appearance.
pub open spec fn sources_in_order(ps: Seq<PackageModel>) -> Seq<PackageSource>
    decreases ps.len(),
{
    if ps.len() == 0 {
        Seq::empty()
    } else {
        let r = sources_in_order(ps.drop_last());
        if r.contains(ps.last().source) {
            r
        } else {
            r.push(ps.last().source)
        }
    }
}

/// The number of packages of `ps` from source `s`.
pub open spec fn count_from(ps: Seq<PackageModel>, s: PackageSource) -> nat
    decreases ps.len(),
{
    if ps.len() == 0 {
        0
    } else {
        count_from(ps.drop_last(), s) + if ps.last().source == s {
            1nat
        } else {
            0nat
        }
    }
}

/// The sum of the known sizes of the packages of `ps` from source `s`.
pub open spec fn size_from(ps: Seq<PackageModel>, s: PackageSource) -> nat
    decreases ps.len(),
{
    if ps.len() == 0 {
        0
    } else {
        size_from(ps.drop_last(), s) + if ps.last().source == s {
            size_or_zero(ps.last())
        } else {
            0nat
        }
    }
}

/// For each source of `ps`, in order of first appearance: its name, how many packages
/// come from it and their total known size.
pub open spec fn source_rows(ps: Seq<PackageModel>) -> Seq<(Seq<char>, nat, nat)> {
    sources_in_order(ps).map_values(|s: PackageSource| (s.name(), count_from(ps, s), size_from(ps, s)))
}

/// The rows of a statistics table, as mathematical values.
pub open spec fn rows_view(v: Seq<(String, usize, u64)>) -> Seq<(Seq<char>, nat, nat)> {
    v.map_values(|r: (String, usize, u64)| (r.0@, r.1 as nat, r.2 as nat))
}

/// The elements of `s` at the positions `order`.
pub open spec fn pick<A>(s: Seq<A>, order: Seq<usize>) -> Seq<A> {
    order.map_values(|i: usize| s[i as int])
}

/// At most the first ten elements of `s`.
pub open spec fn first_ten<A>(s: Seq<A>) -> Seq<A> {
    if s.len() <= 10 {
        s
    } else {
        s.take(10)
    }
}

/// Sort keys for largest first: the negated sizes.
pub open spec fn largest_keys(ps: Seq<PackageModel>) -> Seq<i128> {
    ps.map_values(|p: PackageModel| (-(size_or_zero(p) as int)) as i128)
}

/// Sort keys for oldest first: the installed dates.
pub open spec fn oldest_keys(ps: Seq<PackageModel>) -> Seq<i128> {
    ps.map_values(|p: PackageModel| date_or_zero(p) as i128)
}

/// Sort keys for newest first: the negated installed dates.
pub open spec fn newest_keys(ps: Seq<PackageModel>) -> Seq<i128> {
    ps.map_values(|p: PackageModel| (-date_or_zero(p)) as i128)
}

/// Sort keys for the most common sources first: the negated counts.
pub open spec fn row_keys(rows: Seq<(Seq<char>, nat, nat)>) -> Seq<i128> {
    rows.map_values(|r: (Seq<char>, nat, nat)| (-(r.1 as int)) as i128)
}

/// The ten first packages of `ps` in the stable order of `keys`.
pub open spec fn top_ten(ps: Seq<PackageModel>, keys: Seq<i128>) -> Seq<PackageModel> {
    first_ten(pick(ps, stable_order(keys, ps.len())))
}

/// The number of events of `s` whose action is `a`.
pub open spec fn count_action(s: Seq<PackageEvent>, a: Seq<char>) -> nat
    decreases s.len(),
{
    if s.len() == 0 {
        0
    } else {
        count_action(s.drop_last(), a) + if s.last().action@ == a {
            1nat
        } else {
            0nat
        }
    }
}

/// The size sums grow with the prefix and stay within the total.
proof fn lemma_size_sums(ps: Seq<PackageModel>, i: int, s: PackageSource)
    requires
        0 <= i <= ps.len(),
    ensures
        total_size_of(ps.take(i)) <= total_size_of(ps),
        size_from(ps, s) <= total_size_of(ps),
        count_from(ps, s) <= ps.len(),
    decreases ps.len(),
{
    if ps.len() > 0 {
        if i == ps.len() {
            assert(ps.take(i) =~= ps);
        } else {
            lemma_size_sums(ps.drop_last(), i, s);
            assert(ps.drop_last().take(i) =~= ps.take(i));
        }
        lemma_size_sums(ps.drop_last(), 0, s);
    }
}

/// Each source appears once in the order of first appearance.
pub proof fn lemma_sources_distinct(ps: Seq<PackageModel>)
    ensures
        sources_in_order(ps).no_duplicates(),
    decreases ps.len(),
{
    if ps.len() > 0 {
        lemma_sources_distinct(ps.drop_last());
        let r = sources_in_order(ps.drop_last());
        if !r.contains(ps.last().source) {
            assert forall|a: int, b: int| 0 <= a < b < r.len() + 1 implies r.push(ps.last().source)[a] != r.push(
                ps.last().source,
            )[b] by {
                if b == r.len() {
                    assert(r.contains(r[a]));
                }
            }
        }
    }
}

/// A source that never appears has no packages and no size.
pub proof fn lemma_absent_source(ps: Seq<PackageModel>, s: PackageSource)
    requires
        !sources_in_order(ps).contains(s),
    ensures
        count_from(ps, s) == 0,
        size_from(ps, s) == 0,
    decreases ps.len(),
{
    if ps.len() > 0 {
        let r = sources_in_order(ps.drop_last());
        if r.contains(s) {
            let q = r.index_of(s);
            if r.contains(ps.last().source) {
                assert(sources_in_order(ps)[q] == s);
            } else {
                assert(sources_in_order(ps)[q] == s);
            }
        }
        if ps.last().source == s {
            if r.contains(s) {
            } else {
                assert(sources_in_order(ps)[r.len() as int] == s);
            }
        }
        lemma_absent_source(ps.drop_last(), s);
    }
}

/// No source has more packages than there are.
pub proof fn lemma_count_bound(ps: Seq<PackageModel>, s: PackageSource)
    ensures
        count_from(ps, s) <= ps.len(),
    decreases ps.len(),
{
    if ps.len() > 0 {
        lemma_count_bound(ps.drop_last(), s);
    }
}

/// The number of events of `events` with action `a`.
fn count_events(events: &Vec<PackageEvent>, a: &str) -> (n: usize)
    ensures
        n == count_action(events@, a@),
{
    let mut n: usize = 0;
    let mut i: usize = 0;
    while i < events.len()
        invariant
            i <= events@.len(),
            n == count_action(events@.take(i as int), a@),
            n <= i,
        decreases events@.len() - i,
    {
        assert(events@.take(i + 1).drop_last() =~= events@.take(i as int));
        if action_is(&events[i], a) {
            n = n + 1;
        }
        i = i + 1;
    }
    assert(events@.take(events@.len() as int) =~= events@);
    n
}

/// The packages of `ps` at the first ten positions of `order`.
fn pick_ten(ps: &Vec<Package>, order: &Vec<usize>) -> (r: Vec<Package>)
    requires
        forall|t: int| 0 <= t < order@.len() ==> order@[t] < ps@.len(),
    ensures
        models_of(r@) == first_ten(pick(models_of(ps@), order@)),
{
    let n = if order.len() < 10 {
        order.len()
    } else {
        10
    };
    let mut r: Vec<Package> = Vec::new();
    let mut i: usize = 0;
    while i < n
        invariant
            i <= n <= order@.len(),
            n == if order@.len() < 10 { order@.len() } else { 10 },
            forall|t: int| 0 <= t < order@.len() ==> order@[t] < ps@.len(),
            models_of(r@) == pick(models_of(ps@), order@).take(i as int),
        decreases n - i,
    {
        let ghost before = models_of(r@);
        r.push(ps[order[i]].clone());
        assert(models_of(r@) =~= before.push(ps@[order@[i as int] as int]@));
        assert(pick(models_of(ps@), order@).take(i + 1) =~= pick(models_of(ps@), order@).take(i as int).push(
            pick(models_of(ps@), order@)[i as int],
        ));
        assert(models_of(r@) =~= pick(models_of(ps@), order@).take(i + 1));
        i = i + 1;
    }
    assert(pick(models_of(ps@), order@).take(n as int) =~= first_ten(pick(models_of(ps@), order@)));
    r
}

impl Tracker {
    /// The sum of the known sizes of the installed packages, if it fits in 64 bits.
    pub fn total_installed_size(&self) -> (r: Option<u64>)
        requires
            self.wf(),
        ensures
            r is Some == (total_size_of(self.installed()) <= u64::MAX),
            r matches Some(t) ==> t == total_size_of(self.installed()),
    {
        let installed = self.get_installed_packages_all();
        let ghost ps = models_of(installed@);
        let mut total: u64 = 0;
        let mut i: usize = 0;
        while i < installed.len()
            invariant
                i <= installed@.len(),
                ps == models_of(installed@),
                ps == self.installed(),
                total == total_size_of(ps.take(i as int)),
            decreases installed@.len() - i,
        {
            assert(ps.take(i + 1).drop_last() =~= ps.take(i as int));
            assert(ps.take(i + 1).last() == installed@[i as int]@);
            let add: u64 = match installed[i].size {
                Some(s) => s,
                None => 0,
            };
            if total > u64::MAX - add {
                proof {
                    lemma_size_sums(ps, i + 1, PackageSource::Pkg);
                }
                return None;
            }
            total = total + add;
            i = i + 1;
        }
        assert(ps.take(ps.len() as int) =~= ps);
        Some(total)
    }

    /// Statistics over the installed packages and the log: counts and sizes, the packages
    /// by source (most common first), the ten largest, oldest and newest packages (ties
    /// in cache order), and the numbers of log events.
    #[verifier::rlimit(40)]
    pub fn get_stats(&self) -> (st: Stats)
        requires
            self.wf(),
            total_size_of(self.installed()) <= u64::MAX,
        ensures
            st.total_packages == self.installed().len(),
            st.used_packages == used_order(self.usage_cache.events@).len(),
            st.total_size == total_size_of(self.installed()),
            rows_view(st.by_source@) == pick(
                source_rows(self.installed()),
                stable_order(row_keys(source_rows(self.installed())), source_rows(self.installed()).len()),
            ),
            models_of(st.largest_packages@) == top_ten(self.installed(), largest_keys(self.installed())),
            models_of(st.oldest_packages@) == top_ten(self.installed(), oldest_keys(self.installed())),
            models_of(st.newest_packages@) == top_ten(self.installed(), newest_keys(self.installed())),
            st.average_package_size == if self.installed().len() > 0 {
                total_size_of(self.installed()) / self.installed().len()
            } else {
                0
            },
            st.total_log_entries == self.usage_cache.event_count,
            st.total_install_events == count_action(self.usage_cache.events@, "INSTALL"@),
            st.total_remove_events == count_action(self.usage_cache.events@, "REMOVE"@),
    {
        let packages = self.get_installed_packages_all();
        let ghost ps = models_of(packages@);
        let used = self.get_used_packages();
        let n = packages.len();
        let mut total: u64 = 0;
        let mut groups: Vec<(PackageSource, usize, u64)> = Vec::new();
        let mut large: Vec<i128> = Vec::new();
        let mut old_first: Vec<i128> = Vec::new();
        let mut new_first: Vec<i128> = Vec::new();
        let mut i: usize = 0;
        while i < n
            invariant
                i <= n == packages@.len(),
                ps == models_of(packages@),
                ps == self.installed(),
                total_size_of(ps) <= u64::MAX,
                total == total_size_of(ps.take(i as int)),
                groups@.len() == sources_in_order(ps.take(i as int)).len(),
                forall|j: int| 0 <= j < groups@.len() ==> {
                    let s = sources_in_order(ps.take(i as int))[j];
                    &&& #[trigger] groups@[j].0 == s
                    &&& groups@[j].1 == count_from(ps.take(i as int), s)
                    &&& groups@[j].2 == size_from(ps.take(i as int), s)
                },
                large@ == largest_keys(ps.take(i as int)),
                old_first@ == oldest_keys(ps.take(i as int)),
                new_first@ == newest_keys(ps.take(i as int)),
            decreases n - i,
        {
            let pkg = &packages[i];
            let ghost p0 = ps.take(i as int);
            let ghost p1 = ps.take(i + 1);
            assert(p1.drop_last() =~= p0);
            assert(p1.last() == pkg@);
            proof {
                lemma_size_sums(ps, i + 1, pkg.source);
                lemma_size_sums(p1, i + 1, pkg.source);
                assert(p1.take(i + 1) =~= p1);
                assert(ps.take(i + 1) =~= p1);
            }
            let add: u64 = match pkg.size {
                Some(s) => s,
                None => 0,
            };
            total = total + add;
            let mut j: usize = 0;
            let mut found = false;
            while j < groups.len() && !found
                invariant
                    j <= groups@.len(),
                    !found ==> forall|t: int| 0 <= t < j ==> groups@[t].0 != pkg.source,
                    found ==> j > 0 && groups@[j - 1].0 == pkg.source,
                decreases groups@.len() - j, if found { 0int } else { 1int },
            {
                if groups[j].0 == pkg.source {
                    found = true;
                }
                j = j + 1;
            }
            let ghost so = sources_in_order(p0);
            proof {
                lemma_sources_distinct(p0);
            }
            if found {
                let k = j - 1;
                let (src, c, z) = groups[k];
                assert(so[k as int] == pkg.source);
                assert(so.contains(pkg.source));
                assert(c <= i);
                groups.set(k, (src, c + 1, z + add));
                proof {
                    assert(sources_in_order(p1) == so);
                    assert forall|j: int| 0 <= j < groups@.len() implies {
                        let s = sources_in_order(p1)[j];
                        &&& #[trigger] groups@[j].0 == s
                        &&& groups@[j].1 == count_from(p1, s)
                        &&& groups@[j].2 == size_from(p1, s)
                    } by {
                        if j != k {
                            assert(so[j] != so[k as int]);
                        }
                    }
                }
            } else {
                assert(!so.contains(pkg.source)) by {
                    if so.contains(pkg.source) {
                        let q = so.index_of(pkg.source);
                        assert(groups@[q].0 == so[q]);
                    }
                }
                groups.push((pkg.source, 1, add));
                proof {
                    lemma_absent_source(p0, pkg.source);
                    assert(sources_in_order(p1) == so.push(pkg.source));
                    assert forall|j: int| 0 <= j < groups@.len() implies {
                        let s = sources_in_order(p1)[j];
                        &&& #[trigger] groups@[j].0 == s
                        &&& groups@[j].1 == count_from(p1, s)
                        &&& groups@[j].2 == size_from(p1, s)
                    } by {
                        if j < so.len() {
                            assert(so[j] != pkg.source);
                        }
                    }
                }
            }
            let z: u64 = add;
            let d: i64 = match pkg.installed_date {
                Some(x) => x,
                None => 0,
            };
            large.push(-(z as i128));
            old_first.push(d as i128);
            new_first.push(-(d as i128));
            assert(large@ =~= largest_keys(p1));
            assert(old_first@ =~= oldest_keys(p1));
            assert(new_first@ =~= newest_keys(p1));
            i = i + 1;
        }
        assert(ps.take(n as int) =~= ps);
        let ghost rows = source_rows(ps);
        let mut table: Vec<(String, usize, u64)> = Vec::new();
        let mut keys: Vec<i128> = Vec::new();
        let mut g: usize = 0;
        while g < groups.len()
            invariant
                g <= groups@.len(),
                groups@.len() == sources_in_order(ps).len(),
                rows == source_rows(ps),
                forall|j: int| 0 <= j < groups@.len() ==> {
                    let s = sources_in_order(ps)[j];
                    &&& #[trigger] groups@[j].0 == s
                    &&& groups@[j].1 == count_from(ps, s)
                    &&& groups@[j].2 == size_from(ps, s)
                },
                rows_view(table@) == rows.take(g as int),
                keys@ == row_keys(rows.take(g as int)),
            decreases groups@.len() - g,
        {
            let (src, c, z) = groups[g];
            let name = src.to_string();
            table.push((name, c, z));
            keys.push(-(c as i128));
            assert(rows_view(table@) =~= rows.take(g + 1));
            assert(keys@ =~= row_keys(rows.take(g + 1)));
            g = g + 1;
        }
        assert(rows.take(rows.len() as int) =~= rows);
        let order = stable_order_of(&keys);
        let mut by_source: Vec<(String, usize, u64)> = Vec::new();
        let mut t: usize = 0;
        while t < order.len()
            invariant
                t <= order@.len(),
                order@ == stable_order(row_keys(rows), rows.len()),
                forall|q: int| 0 <= q < order@.len() ==> order@[q] < table@.len(),
                rows_view(table@) == rows,
                rows_view(by_source@) == pick(rows, order@).take(t as int),
            decreases order@.len() - t,
        {
            let row = &table[order[t]];
            let ghost before = rows_view(by_source@);
            by_source.push((row.0.clone(), row.1, row.2));
            assert(rows_view(table@)[order@[t as int] as int] == (row.0@, row.1 as nat, row.2 as nat));
            assert(rows_view(by_source@) =~= before.push((row.0@, row.1 as nat, row.2 as nat)));
            assert(pick(rows, order@).take(t + 1) =~= pick(rows, order@).take(t as int).push(pick(rows, order@)[t as int]));
            assert(rows_view(by_source@) =~= pick(rows, order@).take(t + 1));
            t = t + 1;
        }
        assert(pick(rows, order@).take(order@.len() as int) =~= pick(rows, order@));
        let largest = pick_ten(&packages, &stable_order_of(&large));
        let oldest = pick_ten(&packages, &stable_order_of(&old_first));
        let newest = pick_ten(&packages, &stable_order_of(&new_first));
        let average = if n > 0 {
            total / (n as u64)
        } else {
            0
        };
        Stats {
            total_packages: n,
            used_packages: used.len(),
            total_size: total,
            by_source,
            largest_packages: largest,
            oldest_packages: oldest,
            newest_packages: newest,
            average_package_size: average,
            total_log_entries: self.usage_cache.event_count,
            total_install_events: count_events(&self.usage_cache.events, "INSTALL"),
            total_remove_events: count_events(&self.usage_cache.events, "REMOVE"),
        }
    }
}

} // verus!
