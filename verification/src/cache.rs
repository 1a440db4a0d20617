//! The package cache: the tracked packages by name, and statistics about the cache file.
//!
//! Reading and writing the cache file is done by the caller; this module keeps the
//! packages the file holds and decides what the file should hold next.

use vstd::prelude::*;
use crate::config::{Config, ConfigModel};
use crate::models::{Package, PackageModel};
use crate::strmap::StrMap;
use crate::text::{decimal, join_spec, owned, path_join, push_str, push_u64};
use crate::strmap::{lemma_filter_absent, views_of};
use crate::utils::{compute_file_checksum, format_size, format_size_spec, hex_text, sha256_of};

verus! {

broadcast use vstd::string::group_string_axioms;

/// The packages of the cache, by name, and where the cache lives.
pub struct CacheManager {
    config: Config,
    cache_file: String,
    metadata_file: String,
    packages: StrMap<Package>,
}

/// What is known of a package's install path on disk.
#[derive(Debug, Clone, Copy)]
pub struct PathStatus {
    pub exists: bool,
    pub size: Option<u64>,
}

/// The models of a map's values, position by position.
pub open spec fn models_of(s: Seq<Package>) -> Seq<PackageModel> {
    s.map_values(|p: Package| p@)
}

/// The cached packages by name, as models.
pub open spec fn package_models(m: Map<Seq<char>, Package>) -> Map<Seq<char>, PackageModel> {
    Map::new(|k: Seq<char>| m.contains_key(k), |k: Seq<char>| m[k]@)
}

/// The installed date a package is judged by when merging (none counts as 0).
pub open spec fn date_of(p: PackageModel) -> i64 {
    match p.installed_date {
        Some(d) => d,
        None => 0,
    }
}

/// The packages of a list by name; a later package replaces an earlier one of the same name.
pub open spec fn by_name(s: Seq<PackageModel>) -> Map<Seq<char>, PackageModel>
    decreases s.len(),
{
    if s.len() == 0 {
        Map::empty()
    } else {
        by_name(s.drop_last()).insert(s.last().name, s.last())
    }
}

/// The result of merging `other` into `current`: a package of `other` is taken when its
/// name is new or its installed date is later than the current one's.
pub open spec fn merged(
    current: Map<Seq<char>, PackageModel>,
    other: Map<Seq<char>, PackageModel>,
) -> Map<Seq<char>, PackageModel> {
    Map::new(
        |k: Seq<char>| current.contains_key(k) || other.contains_key(k),
        |k: Seq<char>|
            if other.contains_key(k) && (!current.contains_key(k) || date_of(other[k]) > date_of(
                current[k],
            )) {
                other[k]
            } else {
                current[k]
            },
    )
}

/// The problems found with one cached package, given what is on disk.
pub open spec fn package_issues(p: PackageModel, st: PathStatus) -> Seq<Seq<char>> {
    let missing = if !st.exists {
        seq!["Package '"@ + p.name + "' path does not exist: "@ + p.install_path]
    } else {
        Seq::<Seq<char>>::empty()
    };
    let actual: u64 = match st.size {
        Some(a) => a,
        None => 0,
    };
    match p.size {
        Some(s) => if actual > 0 && s != actual {
            missing.push(
                "Package '"@ + p.name + "' size mismatch: cached "@ + format_size_spec(s as nat)
                    + ", actual "@ + format_size_spec(actual as nat),
            )
        } else {
            missing
        },
        None => missing,
    }
}

/// The problems found with all cached packages, in order.
pub open spec fn all_issues(ps: Seq<PackageModel>, st: Seq<PathStatus>) -> Seq<Seq<char>>
    decreases ps.len(),
{
    if ps.len() == 0 || st.len() < ps.len() {
        Seq::empty()
    } else {
        all_issues(ps.drop_last(), st.take(ps.len() - 1)) + package_issues(ps.last(), st[ps.len() - 1])
    }
}

/// Whether each stored package is stored under its own name.
pub open spec fn stored_under_names(m: StrMap<Package>) -> bool {
    forall|i: int| 0 <= i < m.vals@.len() ==> #[trigger] m.vals@[i].name@ == m.key_views()[i]
}

/// Whether `listing` holds each package of `packages` exactly once: every listed package
/// is the one cached under its name, no name is listed twice, and every cached name is
/// listed.
pub open spec fn lists_each_once(listing: Seq<PackageModel>, packages: Map<Seq<char>, PackageModel>) -> bool {
    &&& listing.len() == packages.dom().len()
    &&& forall|i: int|
        0 <= i < listing.len() ==> packages.contains_key((#[trigger] listing[i]).name) && packages[listing[i].name]
            == listing[i]
    &&& forall|i: int, j: int|
        #![trigger listing[i], listing[j]]
        0 <= i < listing.len() && 0 <= j < listing.len() && i != j ==> listing[i].name != listing[j].name
    &&& forall|k: Seq<char>|
        #[trigger] packages.contains_key(k) ==> exists|i: int| 0 <= i < listing.len() && listing[i].name == k
}

/// Storing `p` under its own name keeps every package stored under its own name.
proof fn lemma_insert_keeps_names(a: StrMap<Package>, b: StrMap<Package>, p: Package)
    requires
        a.wf(),
        stored_under_names(a),
        a.key_views().contains(p.name@) ==> b.key_views() == a.key_views() && b.vals@ == a.vals@.update(
            a.key_views().index_of(p.name@),
            p,
        ),
        !a.key_views().contains(p.name@) ==> b.key_views() == a.key_views().push(p.name@) && b.vals@
            == a.vals@.push(p),
    ensures
        stored_under_names(b),
{
    if a.key_views().contains(p.name@) {
        let idx = a.key_views().index_of(p.name@);
        assert(a.key_views()[idx] == p.name@);
        assert forall|i: int| 0 <= i < b.vals@.len() implies #[trigger] b.vals@[i].name@ == b.key_views()[i] by {
            if i != idx {
                assert(b.vals@[i] == a.vals@[i]);
            }
        }
    } else {
        assert forall|i: int| 0 <= i < b.vals@.len() implies #[trigger] b.vals@[i].name@ == b.key_views()[i] by {
            if i < a.vals@.len() {
                assert(b.vals@[i] == a.vals@[i]);
                assert(b.key_views()[i] == a.key_views()[i]);
            }
        }
    }
}

impl CacheManager {
    /// The map of cached packages is well formed.
    pub closed spec fn wf(&self) -> bool {
        &&& self.packages.wf()
        &&& stored_under_names(self.packages)
    }

    /// The listing holds each cached package exactly once.
    pub proof fn lemma_listing(&self)
        requires
            self.wf(),
        ensures
            lists_each_once(self.listing(), self.packages()),
    {
        let m = self.packages;
        let l = self.listing();
        let pk = self.packages();
        m.lemma_entries();
        m.key_views().unique_seq_to_set();
        assert(pk.dom() =~= m.map().dom());
        assert forall|i: int| 0 <= i < l.len() implies pk.contains_key((#[trigger] l[i]).name) && pk[l[i].name]
            == l[i] by {
            assert(l[i] == m.vals@[i]@);
            assert(m.vals@[i].name@ == m.key_views()[i]);
        }
        assert forall|i: int, j: int|
            #![trigger l[i], l[j]]
            0 <= i < l.len() && 0 <= j < l.len() && i != j implies l[i].name != l[j].name by {
            assert(m.vals@[i].name@ == m.key_views()[i]);
            assert(m.vals@[j].name@ == m.key_views()[j]);
        }
        assert forall|k: Seq<char>| #[trigger] pk.contains_key(k) implies exists|i: int|
            0 <= i < l.len() && l[i].name == k by {
            let i = m.key_views().index_of(k);
            assert(m.key_views()[i] == k);
            assert(m.vals@[i].name@ == m.key_views()[i]);
            assert(l[i].name == k);
        }
    }

    /// The cached packages by name.
    pub closed spec fn packages(&self) -> Map<Seq<char>, PackageModel> {
        package_models(self.packages.map())
    }

    /// The cached packages in the order they were first added.
    pub closed spec fn listing(&self) -> Seq<PackageModel> {
        models_of(self.packages.vals@)
    }

    /// The settings the cache was made with.
    pub closed spec fn config(&self) -> ConfigModel {
        self.config@
    }

    /// The path of the cache file.
    pub closed spec fn cache_file(&self) -> Seq<char> {
        self.cache_file@
    }

    /// The path of the metadata file.
    pub closed spec fn metadata_file(&self) -> Seq<char> {
        self.metadata_file@
    }

    /// An empty cache kept at the configured database file, with its metadata in the cache directory.
    pub fn new(config: Config) -> (m: Self)
        ensures
            m.wf(),
            m.packages() == Map::<Seq<char>, PackageModel>::empty(),
            m.listing().len() == 0,
            m.config() == config@,
            m.cache_file() == config@.db_file,
            m.metadata_file() == join_spec(config@.cache_dir, "metadata.json"@),
            lists_each_once(m.listing(), m.packages()),
    {
        let cache_file = config.db_file.clone();
        let metadata_file = path_join(config.cache_dir.as_str(), "metadata.json");
        let m = CacheManager { config, cache_file, metadata_file, packages: StrMap::new() };
        assert(m.packages() =~= Map::<Seq<char>, PackageModel>::empty());
        proof {
            m.lemma_listing();
        }
        m
    }

    /// The path of the cache file.
    pub fn cache_file_path(&self) -> (s: String)
        ensures
            s@ == self.cache_file(),
    {
        self.cache_file.clone()
    }

    /// The path of the metadata file.
    pub fn metadata_file_path(&self) -> (s: String)
        ensures
            s@ == self.metadata_file(),
    {
        self.metadata_file.clone()
    }

    /// Replaces the cached packages with those of a freshly read cache file; a later
    /// entry replaces an earlier one of the same name.
    pub fn load_entries(&mut self, entries: Vec<Package>)
        requires
            old(self).wf(),
        ensures
            final(self).wf(),
            final(self).packages() == by_name(models_of(entries@)),
            lists_each_once(final(self).listing(), final(self).packages()),
            final(self).config() == old(self).config(),
            final(self).cache_file() == old(self).cache_file(),
            final(self).metadata_file() == old(self).metadata_file(),
    {
        let ghost es = models_of(entries@);
        self.packages = StrMap::new();
        let mut i: usize = 0;
        let mut entries = entries;
        let ghost all = entries@;
        proof {
            assert(package_models(self.packages.map()) =~= by_name(models_of(all.take(0))));
        }
        while i < entries.len()
            invariant
                i <= entries@.len(),
                entries@.len() == all.len(),
                forall|j: int| i <= j < all.len() ==> #[trigger] entries@[j] == all[j],
                self.packages.wf(),
                stored_under_names(self.packages),
                self.config@ == old(self).config@,
                self.cache_file == old(self).cache_file,
                self.metadata_file == old(self).metadata_file,
                package_models(self.packages.map()) == by_name(models_of(all.take(i as int))),
            decreases entries@.len() - i,
        {
            let p = entries[i].clone();
            let name = p.name.clone();
            let ghost gp = p;
            let ghost before = self.packages;
            self.packages.insert(name, p);
            proof {
                lemma_insert_keeps_names(before, self.packages, gp);
                assert(models_of(all.take(i + 1)).drop_last() =~= models_of(all.take(i as int)));
                assert(models_of(all.take(i + 1)).last() == all[i as int]@);
                assert(package_models(self.packages.map()) =~= by_name(models_of(all.take(i + 1))));
            }
            i = i + 1;
        }
        assert(all.take(all.len() as int) =~= all);
        proof {
            self.lemma_listing();
        }
    }

    /// All cached packages, in the order they were first added.
    pub fn get_all(&self) -> (r: Vec<Package>)
        requires
            self.wf(),
        ensures
            models_of(r@) == self.listing(),
            lists_each_once(models_of(r@), self.packages()),
    {
        proof {
            self.lemma_listing();
        }
        let mut r: Vec<Package> = Vec::new();
        let mut i: usize = 0;
        while i < self.packages.vals.len()
            invariant
                i <= self.packages.vals@.len(),
                models_of(r@) == models_of(self.packages.vals@.take(i as int)),
            decreases self.packages.vals@.len() - i,
        {
            let ghost before = r@;
            r.push(self.packages.vals[i].clone());
            assert(models_of(r@) =~= models_of(before).push(self.packages.vals@[i as int]@));
            assert(models_of(self.packages.vals@.take(i + 1)) =~= models_of(self.packages.vals@.take(i as int)).push(self.packages.vals@[i as int]@));
            i = i + 1;
        }
        assert(self.packages.vals@.take(self.packages.vals@.len() as int) =~= self.packages.vals@);
        r
    }

    /// The number of cached packages.
    pub fn len(&self) -> (n: usize)
        requires
            self.wf(),
        ensures
            n == self.packages().dom().len(),
            n == self.listing().len(),
    {
        proof {
            assert(self.packages().dom() =~= self.packages.map().dom());
        }
        self.packages.len()
    }

    /// The cached package called `name`, if any.
    pub fn get_package(&self, name: &str) -> (r: Option<Package>)
        requires
            self.wf(),
        ensures
            r is Some == self.packages().contains_key(name@),
            r matches Some(p) ==> p@ == self.packages()[name@],
    {
        match self.packages.get(name) {
            Some(p) => Some(p.clone()),
            None => None,
        }
    }

    /// Adds (or replaces) a package under its name.
    pub fn add_package(&mut self, package: Package)
        requires
            old(self).wf(),
        ensures
            final(self).wf(),
            final(self).packages() == old(self).packages().insert(package.name@, package@),
            lists_each_once(final(self).listing(), final(self).packages()),
            final(self).config() == old(self).config(),
    {
        let name = package.name.clone();
        let ghost gp = package;
        let ghost before = self.packages;
        self.packages.insert(name, package);
        assert(self.packages() =~= old(self).packages().insert(package.name@, package@));
        proof {
            lemma_insert_keeps_names(before, self.packages, gp);
            self.lemma_listing();
        }
    }

    /// Replaces (or adds) a package under its name.
    pub fn update_package(&mut self, package: Package)
        requires
            old(self).wf(),
        ensures
            final(self).wf(),
            final(self).packages() == old(self).packages().insert(package.name@, package@),
            lists_each_once(final(self).listing(), final(self).packages()),
            final(self).config() == old(self).config(),
    {
        self.add_package(package);
    }

    /// Drops the package called `name`, if cached.
    pub fn remove_package(&mut self, name: &str)
        requires
            old(self).wf(),
        ensures
            final(self).wf(),
            final(self).packages() == old(self).packages().remove(name@),
            lists_each_once(final(self).listing(), final(self).packages()),
            final(self).config() == old(self).config(),
    {
        let ghost before = self.packages;
        let _ = self.packages.remove(name);
        assert(self.packages() =~= old(self).packages().remove(name@));
        proof {
            if before.key_views().contains(name@) {
                let idx = before.key_views().index_of(name@);
                assert forall|i: int| 0 <= i < self.packages.vals@.len() implies #[trigger] self.packages.vals@[i].name@
                    == self.packages.key_views()[i] by {
                    if i < idx {
                        assert(self.packages.vals@[i] == before.vals@[i]);
                        assert(self.packages.key_views()[i] == before.key_views()[i]);
                    } else {
                        assert(self.packages.vals@[i] == before.vals@[i + 1]);
                        assert(self.packages.key_views()[i] == before.key_views()[i + 1]);
                    }
                }
            } else {
                lemma_filter_absent(before.key_views(), name@);
                assert forall|i: int| 0 <= i < self.packages.vals@.len() implies #[trigger] self.packages.vals@[i].name@
                    == self.packages.key_views()[i] by {
                    assert(self.packages.vals@[i] == before.vals@[i]);
                }
            }
            self.lemma_listing();
        }
    }

    /// The packages to write back when compacting the cache file: each cached package once.
    pub fn compact(&self) -> (r: Vec<Package>)
        requires
            self.wf(),
        ensures
            models_of(r@) == self.listing(),
            lists_each_once(models_of(r@), self.packages()),
    {
        self.get_all()
    }

    /// Merges the entries of another cache file: a package there is taken when its name
    /// is new or its installed date is later than the cached one's.
    pub fn merge(&mut self, other: Vec<Package>)
        requires
            old(self).wf(),
        ensures
            final(self).wf(),
            final(self).packages() == merged(old(self).packages(), by_name(models_of(other@))),
            lists_each_once(final(self).listing(), final(self).packages()),
            final(self).config() == old(self).config(),
    {
        let mut incoming = CacheManager {
            config: self.config.duplicate(),
            cache_file: self.cache_file.clone(),
            metadata_file: self.metadata_file.clone(),
            packages: StrMap::new(),
        };
        incoming.load_entries(other);
        let ghost cur = self.packages();
        let ghost oth = incoming.packages();
        let n = incoming.packages.vals.len();
        let mut i: usize = 0;
        proof {
            incoming.packages.lemma_entries();
        }
        while i < n
            invariant
                n == incoming.packages.vals@.len(),
                incoming.packages.wf(),
                stored_under_names(incoming.packages),
                i <= n,
                self.packages.wf(),
                stored_under_names(self.packages),
                oth == package_models(incoming.packages.map()),
                self.config@ == old(self).config@,
                forall|j: int|
                    0 <= j < n ==> #[trigger] incoming.packages.map().contains_key(
                        incoming.packages.key_views()[j],
                    ) && incoming.packages.map()[incoming.packages.key_views()[j]]
                        == incoming.packages.vals@[j],
                self.packages() == merged(
                    cur,
                    Map::new(
                        |k: Seq<char>|
                            exists|j: int| 0 <= j < i && incoming.packages.key_views()[j] == k,
                        |k: Seq<char>| oth[k],
                    ),
                ),
            decreases n - i,
        {
            let ghost before = self.packages();
            let p = &incoming.packages.vals[i];
            let name = &incoming.packages.keys[i];
            proof {
                assert(incoming.packages.key_views()[i as int] == name@);
            }
            let take = match self.packages.get(name.as_str()) {
                Some(existing) => {
                    let a: i64 = match p.installed_date { Some(d) => d, None => 0 };
                    let b: i64 = match existing.installed_date { Some(d) => d, None => 0 };
                    a > b
                },
                None => true,
            };
            if take {
                let ghost mid = self.packages.map();
                let q = p.clone();
                let ghost gq = q;
                let ghost before_map = self.packages;
                proof {
                    assert(incoming.packages.vals@[i as int].name@ == incoming.packages.key_views()[i as int]);
                }
                self.packages.insert(name.clone(), q);
                proof {
                    lemma_insert_keeps_names(before_map, self.packages, gq);
                }
                assert(package_models(self.packages.map()) =~= package_models(mid).insert(name@, p@));
            }
            proof {
                let done_before = Map::new(
                    |k: Seq<char>| exists|j: int| 0 <= j < i && incoming.packages.key_views()[j] == k,
                    |k: Seq<char>| oth[k],
                );
                let done_after = Map::new(
                    |k: Seq<char>| exists|j: int| 0 <= j < i + 1 && incoming.packages.key_views()[j] == k,
                    |k: Seq<char>| oth[k],
                );
                assert(!done_before.contains_key(name@)) by {
                    if done_before.contains_key(name@) {
                        let j = choose|j: int| 0 <= j < i && incoming.packages.key_views()[j] == name@;
                        assert(incoming.packages.key_views()[j] == incoming.packages.key_views()[i as int]);
                    }
                }
                assert(done_after.contains_key(name@)) by {
                    assert(incoming.packages.key_views()[i as int] == name@);
                }
                assert(oth[name@] == p@);
                assert forall|k: Seq<char>| #[trigger] done_after.contains_key(k) && k != name@ implies done_before.contains_key(k) by {
                    let j = choose|j: int| 0 <= j < i + 1 && incoming.packages.key_views()[j] == k;
                    assert(j != i);
                }
                assert forall|k: Seq<char>| #[trigger] merged(cur, done_after).contains_key(k) == self.packages().contains_key(k)
                    && (self.packages().contains_key(k) ==> merged(cur, done_after)[k] == self.packages()[k]) by {
                    if k != name@ {
                        assert(done_after.contains_key(k) == done_before.contains_key(k));
                    } else {
                        assert(before.contains_key(k) == cur.contains_key(k));
                        if cur.contains_key(k) {
                            assert(before[k] == cur[k]);
                        }
                    }
                }
                assert(self.packages() =~= merged(cur, done_after));
            }
            i = i + 1;
        }
        proof {
            let done = Map::new(
                |k: Seq<char>| exists|j: int| 0 <= j < n && incoming.packages.key_views()[j] == k,
                |k: Seq<char>| oth[k],
            );
            assert forall|k: Seq<char>| done.contains_key(k) <==> oth.contains_key(k) by {
                if oth.contains_key(k) {
                    assert(incoming.packages.key_views().contains(k));
                    let j = incoming.packages.key_views().index_of(k);
                    assert(incoming.packages.key_views()[j] == k);
                }
            }
            assert(done =~= oth);
            self.lemma_listing();
        }
    }

    /// Checks each cached package (in listing order) against what is on disk:
    /// `status[i]` describes the install path of the `i`-th package.
    pub fn validate(&self, status: &Vec<PathStatus>) -> (issues: Vec<String>)
        requires
            self.wf(),
            status@.len() == self.listing().len(),
        ensures
            crate::strmap::views_of(issues@) == all_issues(self.listing(), status@),
    {
        let mut issues: Vec<String> = Vec::new();
        let n = self.packages.vals.len();
        let mut i: usize = 0;
        while i < n
            invariant
                n == self.packages.vals@.len() == status@.len(),
                i <= n,
                crate::strmap::views_of(issues@) == all_issues(
                    models_of(self.packages.vals@).take(i as int),
                    status@.take(i as int),
                ),
            decreases n - i,
        {
            let p = &self.packages.vals[i];
            let st = status[i];
            let ghost before = crate::strmap::views_of(issues@);
            let ghost missing_len: int = if !st.exists { 1 } else { 0 };
            if !st.exists {
                let mut s = owned("Package '");
                push_str(&mut s, p.name.as_str());
                push_str(&mut s, "' path does not exist: ");
                push_str(&mut s, p.install_path.as_str());
                issues.push(s);
            }
            let actual: u64 = match st.size {
                Some(a) => a,
                None => 0,
            };
            if let Some(size) = p.size {
                if actual > 0 && size != actual {
                    let mut s = owned("Package '");
                    push_str(&mut s, p.name.as_str());
                    push_str(&mut s, "' size mismatch: cached ");
                    let a = format_size(size);
                    push_str(&mut s, a.as_str());
                    push_str(&mut s, ", actual ");
                    let b = format_size(actual);
                    push_str(&mut s, b.as_str());
                    issues.push(s);
                }
            }
            proof {
                let ps = models_of(self.packages.vals@).take(i + 1);
                let ss = status@.take(i + 1);
                assert(ps.drop_last() =~= models_of(self.packages.vals@).take(i as int));
                assert(ss.take(ps.len() - 1) =~= status@.take(i as int));
                assert(ps.last() == p@);
                assert(ss[ps.len() - 1] == st);
                assert(crate::strmap::views_of(issues@) =~= before + package_issues(p@, st));
            }
            i = i + 1;
        }
        assert(models_of(self.packages.vals@).take(n as int) =~= self.listing());
        assert(status@.take(n as int) =~= status@);
        issues
    }

    /// Statistics about the cache: its file size, age and freshness as measured on disk,
    /// and the number of cached packages.
    pub fn get_cache_stats(&self, size: u64, age: Option<u64>, is_fresh: bool) -> (s: CacheStats)
        requires
            self.wf(),
        ensures
            s.size == size,
            s.age == age,
            s.is_fresh == is_fresh,
            s.package_count == self.packages().dom().len(),
    {
        CacheStats { size, package_count: self.len(), age, is_fresh }
    }
}

/// The text that `{:?}` gives for a list of strings (std's `Debug` for `Vec<String>`).
pub uninterp spec fn debug_list_text(items: Seq<Seq<char>>) -> Seq<char>;

/// Formats a list of strings with `{:?}`; the result is `debug_list_text` of the items.
#[verifier::external_body]
fn debug_list(items: &Vec<String>) -> (s: String)
    ensures
        s@ == debug_list_text(views_of(items@)),
{
    format!("{:?}", items)
}

/// The text that `{:?}` gives for a list of paths (std's `Debug` for `Vec<PathBuf>`).
pub uninterp spec fn debug_path_list_text(items: Seq<Seq<char>>) -> Seq<char>;

/// Formats a list of paths, each made a `PathBuf`, with `{:?}`; the result is
/// `debug_path_list_text` of the items.
#[verifier::external_body]
fn debug_path_list(items: &Vec<String>) -> (s: String)
    ensures
        s@ == debug_path_list_text(views_of(items@)),
{
    let paths: Vec<std::path::PathBuf> = items.iter().map(std::path::PathBuf::from).collect();
    format!("{:?}", paths)
}

/// The text a configuration's fingerprint is taken of: its scan directories (as paths)
/// and exclude patterns as `{:?}` prints them, then its scan interval and dependency
/// depth in decimal.
pub open spec fn config_fingerprint_text(c: ConfigModel) -> Seq<char> {
    debug_path_list_text(c.scan_dirs) + debug_list_text(c.exclude_patterns) + decimal(c.scan_interval as nat)
        + decimal(c.dependency_depth as nat)
}

impl CacheManager {
    /// The fingerprint of the settings the cache depends on, written beside the cache:
    /// the SHA-256 digest, in lower-case hexadecimal, of the UTF-8 bytes of
    /// `config_fingerprint_text`.
    pub fn config_hash(&self) -> (s: String)
        ensures
            s@ == hex_text(sha256_of(vstd::utf8::encode_utf8(config_fingerprint_text(self.config())))),
            s@.len() == 64,
    {
        let mut text = debug_path_list(&self.config.scan_dirs);
        let patterns = debug_list(&self.config.exclude_patterns);
        push_str(&mut text, patterns.as_str());
        push_u64(&mut text, self.config.scan_interval);
        push_u64(&mut text, self.config.dependency_depth as u64);
        compute_file_checksum(text.as_str().as_bytes())
    }
}

/// Whether a cache written at `last_updated` is still fresh at `now`: its age in seconds
/// is below the scan interval.
pub open spec fn fresh_at(last_updated: Option<i64>, now: i64, interval: u64) -> bool {
    match last_updated {
        Some(t) => now - t < (interval as i64),
        None => false,
    }
}

/// Whether a cache written at `last_updated` (none when unknown) is fresh at `now`.
pub fn is_fresh_at(last_updated: Option<i64>, now: i64, interval: u64) -> (b: bool)
    requires
        last_updated matches Some(t) ==> i64::MIN <= now - t <= i64::MAX,
    ensures
        b == fresh_at(last_updated, now, interval),
{
    match last_updated {
        Some(t) => now - t < interval as i64,
        None => false,
    }
}

/// Size, count, age and freshness of the package cache.
#[derive(Debug, Clone, Copy)]
pub struct CacheStats {
    pub size: u64,
    pub package_count: usize,
    pub age: Option<u64>,
    pub is_fresh: bool,
}

/// An age in seconds as "<hours>h <minutes>m".
pub open spec fn age_text(a: nat) -> Seq<char> {
    decimal(a / 3600) + "h "@ + decimal((a % 3600) / 60) + "m"@
}

impl CacheStats {
    /// The one-line summary of the statistics.
    pub open spec fn summary_text(self) -> Seq<char> {
        "Cache size: "@ + format_size_spec(self.size as nat) + ", Packages: "@ + decimal(
            self.package_count as nat,
        ) + ", Age: "@ + match self.age {
            Some(a) => age_text(a as nat),
            None => "unknown"@,
        } + ", Fresh: "@ + if self.is_fresh {
            "yes"@
        } else {
            "no"@
        }
    }

    /// "Cache size: <size>, Packages: <n>, Age: <h>h <m>m, Fresh: yes|no".
    pub fn summary(&self) -> (s: String)
        ensures
            s@ == self.summary_text(),
    {
        let mut s = owned("Cache size: ");
        let size = format_size(self.size);
        push_str(&mut s, size.as_str());
        push_str(&mut s, ", Packages: ");
        push_u64(&mut s, self.package_count as u64);
        push_str(&mut s, ", Age: ");
        match self.age {
            Some(a) => {
                push_u64(&mut s, a / 3600);
                push_str(&mut s, "h ");
                push_u64(&mut s, (a % 3600) / 60);
                push_str(&mut s, "m");
            },
            None => push_str(&mut s, "unknown"),
        }
        push_str(&mut s, ", Fresh: ");
        if self.is_fresh {
            push_str(&mut s, "yes");
        } else {
            push_str(&mut s, "no");
        }
        s
    }
}

/// What was added can be read back, and nothing else changes.
pub proof fn law_read_after_add(m: Map<Seq<char>, PackageModel>, p: PackageModel, other: Seq<char>)
    ensures
        m.insert(p.name, p).contains_key(p.name),
        m.insert(p.name, p)[p.name] == p,
        other != p.name ==> (m.insert(p.name, p).contains_key(other) == m.contains_key(other)
            && (m.contains_key(other) ==> m.insert(p.name, p)[other] == m[other])),
{
}

/// What was removed cannot be read back, and nothing else changes.
pub proof fn law_read_after_remove(m: Map<Seq<char>, PackageModel>, name: Seq<char>, other: Seq<char>)
    ensures
        !m.remove(name).contains_key(name),
        other != name ==> (m.remove(name).contains_key(other) == m.contains_key(other)
            && (m.contains_key(other) ==> m.remove(name)[other] == m[other])),
{
}

/// Adding a package and then removing it leaves the cache as it was, when it held no
/// package of that name.
pub proof fn law_remove_undoes_add(m: Map<Seq<char>, PackageModel>, p: PackageModel)
    requires
        !m.contains_key(p.name),
    ensures
        m.insert(p.name, p).remove(p.name) == m,
{
    assert(m.insert(p.name, p).remove(p.name) =~= m);
}

/// Merging keeps every name of both sides, and a name only the other side has comes from it.
pub proof fn law_merge_keeps_all_names(
    current: Map<Seq<char>, PackageModel>,
    other: Map<Seq<char>, PackageModel>,
    k: Seq<char>,
)
    ensures
        merged(current, other).contains_key(k) <==> (current.contains_key(k) || other.contains_key(k)),
        other.contains_key(k) && !current.contains_key(k) ==> merged(current, other)[k] == other[k],
        current.contains_key(k) && !other.contains_key(k) ==> merged(current, other)[k] == current[k],
{
}

/// Merging a cache into itself changes nothing.
pub proof fn law_merge_idempotent(current: Map<Seq<char>, PackageModel>)
    ensures
        merged(current, current) == current,
{
    assert(merged(current, current) =~= current);
}

} // verus!
