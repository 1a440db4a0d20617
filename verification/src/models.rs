//! The data the tracker works on: packages, log events and the caches built from them.
//!
//! Paths are held as strings; maps keyed by names are `StrMap`s.

use vstd::prelude::*;
use crate::strmap::{StrMap, views_of};
use crate::graph::contains_name;
use crate::text::{ascii_lower_char, ascii_lowercase, before_first, is_ascii_text, lowercase, owned, split_on, str_eq, to_lowercase};

verus! {

broadcast use vstd::string::group_string_axioms;

/// Where a package came from.
#[derive(Clone, Copy, Debug, PartialEq, Eq, Hash, Structural)]
pub enum PackageSource {
    Pkg,
    Cargo,
    Pip,
    Npm,
    Gem,
    Manual,
    Unknown,
}

impl PackageSource {
    /// The lower-case name of a source, as it is printed.
    pub open spec fn name(self) -> Seq<char> {
        match self {
            PackageSource::Pkg => "pkg"@,
            PackageSource::Cargo => "cargo"@,
            PackageSource::Pip => "pip"@,
            PackageSource::Npm => "npm"@,
            PackageSource::Gem => "gem"@,
            PackageSource::Manual => "manual"@,
            PackageSource::Unknown => "unknown"@,
        }
    }

    /// The source a (lower-cased) name stands for; anything else is `Unknown`.
    pub open spec fn from_name(s: Seq<char>) -> PackageSource {
        if s == "pkg"@ {
            PackageSource::Pkg
        } else if s == "cargo"@ {
            PackageSource::Cargo
        } else if s == "pip"@ {
            PackageSource::Pip
        } else if s == "npm"@ {
            PackageSource::Npm
        } else if s == "gem"@ {
            PackageSource::Gem
        } else if s == "manual"@ {
            PackageSource::Manual
        } else {
            PackageSource::Unknown
        }
    }

    /// The printed name of the source.
    pub fn to_string(&self) -> (s: String)
        ensures
            s@ == self.name(),
    {
        match self {
            PackageSource::Pkg => owned("pkg"),
            PackageSource::Cargo => owned("cargo"),
            PackageSource::Pip => owned("pip"),
            PackageSource::Npm => owned("npm"),
            PackageSource::Gem => owned("gem"),
            PackageSource::Manual => owned("manual"),
            PackageSource::Unknown => owned("unknown"),
        }
    }

    /// Reads a source name, ignoring case; an unknown name gives `Unknown`.
    pub fn from_str(s: &str) -> (r: Self)
        ensures
            r == Self::from_name(lowercase(s@)),
            is_ascii_text(s@) ==> r == Self::from_name(ascii_lowercase(s@)),
    {
        let l = to_lowercase(s);
        let l = l.as_str();
        if str_eq(l, "pkg") {
            PackageSource::Pkg
        } else if str_eq(l, "cargo") {
            PackageSource::Cargo
        } else if str_eq(l, "pip") {
            PackageSource::Pip
        } else if str_eq(l, "npm") {
            PackageSource::Npm
        } else if str_eq(l, "gem") {
            PackageSource::Gem
        } else if str_eq(l, "manual") {
            PackageSource::Manual
        } else {
            PackageSource::Unknown
        }
    }
}

/// Text of ASCII letters, digits and signs, lower-cased, is lower-cased already.
proof fn lemma_ascii_lowercase_twice(s: Seq<char>)
    ensures
        ascii_lowercase(ascii_lowercase(s)) == ascii_lowercase(s),
        is_ascii_text(s) ==> is_ascii_text(ascii_lowercase(s)),
{
    assert forall|i: int| 0 <= i < s.len() implies #[trigger] ascii_lower_char(ascii_lower_char(s[i])) == ascii_lower_char(
        s[i],
    ) by {
        let c = s[i];
        if 65 <= (c as int) <= 90 {
            assert((((c as int) + 32) as char) as int == (c as int) + 32);
        }
    }
    assert(ascii_lowercase(ascii_lowercase(s)) =~= ascii_lowercase(s));
    if is_ascii_text(s) {
        assert forall|i: int| 0 <= i < s.len() implies (#[trigger] ascii_lowercase(s)[i] as int) < 128 by {
            let c = s[i];
            if 65 <= (c as int) <= 90 {
                assert((((c as int) + 32) as char) as int == (c as int) + 32);
            }
        }
    }
}

/// Reading a source's printed name gives the source back; reading ASCII text ignores the
/// case of its letters; and any text read as a known source is that source's name in
/// some mix of cases.
pub proof fn law_from_str_reads_printed_names(src: PackageSource, s: Seq<char>)
    ensures
        is_ascii_text(src.name()),
        PackageSource::from_name(ascii_lowercase(src.name())) == src,
        is_ascii_text(s) ==> is_ascii_text(ascii_lowercase(s)) && PackageSource::from_name(
            ascii_lowercase(ascii_lowercase(s)),
        ) == PackageSource::from_name(ascii_lowercase(s)),
        PackageSource::from_name(ascii_lowercase(s)) != PackageSource::Unknown ==> ascii_lowercase(s)
            == PackageSource::from_name(ascii_lowercase(s)).name(),
{
    reveal_strlit("pkg");
    reveal_strlit("cargo");
    reveal_strlit("pip");
    reveal_strlit("npm");
    reveal_strlit("gem");
    reveal_strlit("manual");
    reveal_strlit("unknown");
    let n = src.name();
    assert(ascii_lowercase(n) =~= n);
    match src {
        PackageSource::Pkg => {},
        PackageSource::Cargo => assert(n.len() != "pkg"@.len()),
        PackageSource::Pip => {
            assert(n[1] != "pkg"@[1]);
            assert(n.len() != "cargo"@.len());
        },
        PackageSource::Npm => {
            assert(n[0] != "pkg"@[0] && n[0] != "pip"@[0]);
            assert(n.len() != "cargo"@.len());
        },
        PackageSource::Gem => {
            assert(n[0] != "pkg"@[0] && n[0] != "pip"@[0] && n[0] != "npm"@[0]);
            assert(n.len() != "cargo"@.len());
        },
        PackageSource::Manual => {
            assert(n.len() != "pkg"@.len() && n.len() != "cargo"@.len());
        },
        PackageSource::Unknown => {
            assert(n.len() != "pkg"@.len() && n.len() != "cargo"@.len() && n.len() != "manual"@.len());
        },
    }
    lemma_ascii_lowercase_twice(s);
}

/// An installed package.
#[derive(Debug)]
pub struct Package {
    pub name: String,
    pub version: Option<String>,
    pub source: PackageSource,
    pub install_path: String,
    pub size: Option<u64>,
    pub dependencies: Option<Vec<String>>,
    pub installed_date: Option<i64>,
    pub last_used: Option<i64>,
    pub usage_count: Option<u64>,
    pub checksum: Option<String>,
}

/// A copy of an optional string.
pub fn clone_opt_string(s: &Option<String>) -> (r: Option<String>)
    ensures
        r == *s,
{
    match s {
        Some(x) => Some(x.clone()),
        None => None,
    }
}

/// A copy of a vector of strings.
pub fn clone_strings(v: &Vec<String>) -> (r: Vec<String>)
    ensures
        r@ == v@,
{
    let mut r: Vec<String> = Vec::new();
    let mut i: usize = 0;
    while i < v.len()
        invariant
            i <= v@.len(),
            r@ == v@.take(i as int),
        decreases v@.len() - i,
    {
        r.push(v[i].clone());
        i = i + 1;
        assert(r@ =~= v@.take(i as int));
    }
    assert(v@.take(v@.len() as int) =~= v@);
    r
}

/// What a package holds, as mathematical values.
pub struct PackageModel {
    pub name: Seq<char>,
    pub version: Option<Seq<char>>,
    pub source: PackageSource,
    pub install_path: Seq<char>,
    pub size: Option<u64>,
    pub dependencies: Option<Seq<Seq<char>>>,
    pub installed_date: Option<i64>,
    pub last_used: Option<i64>,
    pub usage_count: Option<u64>,
    pub checksum: Option<Seq<char>>,
}

/// The characters of an optional string.
pub open spec fn opt_view(s: Option<String>) -> Option<Seq<char>> {
    match s {
        Some(x) => Some(x@),
        None => None,
    }
}

impl View for Package {
    type V = PackageModel;

    open spec fn view(&self) -> PackageModel {
        PackageModel {
            name: self.name@,
            version: opt_view(self.version),
            source: self.source,
            install_path: self.install_path@,
            size: self.size,
            dependencies: match self.dependencies {
                Some(d) => Some(views_of(d@)),
                None => None,
            },
            installed_date: self.installed_date,
            last_used: self.last_used,
            usage_count: self.usage_count,
            checksum: opt_view(self.checksum),
        }
    }
}

impl Clone for Package {
    fn clone(&self) -> (r: Self)
        ensures
            r@ == self@,
    {
        Package {
            name: self.name.clone(),
            version: clone_opt_string(&self.version),
            source: self.source,
            install_path: self.install_path.clone(),
            size: self.size,
            dependencies: match &self.dependencies {
                Some(d) => Some(clone_strings(d)),
                None => None,
            },
            installed_date: self.installed_date,
            last_used: self.last_used,
            usage_count: self.usage_count,
            checksum: clone_opt_string(&self.checksum),
        }
    }
}

/// A log line as the log format describes it, its details kept as JSON text.
#[derive(Debug)]
pub struct LogEntry {
    pub timestamp: i64,
    pub package: String,
    pub action: LogAction,
    pub source: PackageSource,
    pub details: Option<String>,
}

/// One line of the activity log.
#[derive(Debug)]
pub struct PackageEvent {
    pub timestamp: i64,
    pub package: String,
    pub action: String,
    pub source: PackageSource,
    pub details: Option<String>,
    pub pid: Option<u32>,
    pub user: Option<String>,
}

impl Clone for PackageEvent {
    fn clone(&self) -> (r: Self)
        ensures
            r == *self,
    {
        PackageEvent {
            timestamp: self.timestamp,
            package: self.package.clone(),
            action: self.action.clone(),
            source: self.source,
            details: clone_opt_string(&self.details),
            pid: self.pid,
            user: clone_opt_string(&self.user),
        }
    }
}

/// Whether an event counts as a use of its package (an `INSTALL` or a `USE`).
pub open spec fn counts_as_use(e: PackageEvent) -> bool {
    e.action@ == "USE"@ || e.action@ == "INSTALL"@
}

/// Whether an event's action is exactly `a`.
pub fn action_is(e: &PackageEvent, a: &str) -> (b: bool)
    ensures
        b == (e.action@ == a@),
{
    str_eq(e.action.as_str(), a)
}

/// Whether an event counts as a use of its package.
pub fn is_use_event(e: &PackageEvent) -> (b: bool)
    ensures
        b == counts_as_use(*e),
{
    action_is(e, "USE") || action_is(e, "INSTALL")
}

/// A package found unused, with what is known of its last use.
#[derive(Debug)]
pub struct UnusedPackage {
    pub name: String,
    pub source: PackageSource,
    pub last_used: Option<i64>,
    pub days_unused: u32,
    pub size: Option<u64>,
    pub status: PackageStatus,
    pub install_path: String,
}

/// What an unused package holds, as mathematical values.
pub struct UnusedModel {
    pub name: Seq<char>,
    pub source: PackageSource,
    pub last_used: Option<i64>,
    pub days_unused: u32,
    pub size: Option<u64>,
    pub status: PackageStatus,
    pub install_path: Seq<char>,
}

impl View for UnusedPackage {
    type V = UnusedModel;

    open spec fn view(&self) -> UnusedModel {
        UnusedModel {
            name: self.name@,
            source: self.source,
            last_used: self.last_used,
            days_unused: self.days_unused,
            size: self.size,
            status: self.status,
            install_path: self.install_path@,
        }
    }
}

impl Clone for UnusedPackage {
    fn clone(&self) -> (r: Self)
        ensures
            r == *self,
    {
        UnusedPackage {
            name: self.name.clone(),
            source: self.source,
            last_used: self.last_used,
            days_unused: self.days_unused,
            size: self.size,
            status: self.status,
            install_path: self.install_path.clone(),
        }
    }
}

/// Why a package may or may not be removed.
#[derive(Clone, Copy, Debug, PartialEq, Eq, Structural)]
pub enum PackageStatus {
    Unused,
    NeverLogged,
    Protected,
    Dependency,
    SystemCritical,
    Safe,
}

impl PackageStatus {
    /// The printed name of a status.
    pub open spec fn name(self) -> Seq<char> {
        match self {
            PackageStatus::Unused => "unused"@,
            PackageStatus::NeverLogged => "never logged"@,
            PackageStatus::Protected => "protected"@,
            PackageStatus::Dependency => "dependency"@,
            PackageStatus::SystemCritical => "system critical"@,
            PackageStatus::Safe => "safe"@,
        }
    }

    /// The printed name of the status.
    pub fn to_string(&self) -> (s: String)
        ensures
            s@ == self.name(),
    {
        match self {
            PackageStatus::Unused => owned("unused"),
            PackageStatus::NeverLogged => owned("never logged"),
            PackageStatus::Protected => owned("protected"),
            PackageStatus::Dependency => owned("dependency"),
            PackageStatus::SystemCritical => owned("system critical"),
            PackageStatus::Safe => owned("safe"),
        }
    }
}

/// Everything known of one package, for display.
#[derive(Debug)]
pub struct PackageInfo {
    pub name: String,
    pub version: Option<String>,
    pub source: PackageSource,
    pub install_path: String,
    pub size: Option<u64>,
    pub installed_date: Option<String>,
    pub last_used_date: Option<String>,
    pub dependencies: Option<Vec<String>>,
    pub reverse_dependencies: Option<Vec<String>>,
    pub usage_count: Option<u64>,
    pub checksum: Option<String>,
}

/// Direct and reverse dependencies of the installed packages.
pub struct DependencyCache {
    pub direct_deps: StrMap<Vec<String>>,
    pub reverse_deps: StrMap<Vec<String>>,
    pub built_at: i64,
    pub package_count: usize,
    pub max_depth: usize,
}

impl DependencyCache {
    /// Both maps are well formed.
    pub open spec fn wf(&self) -> bool {
        self.direct_deps.wf() && self.reverse_deps.wf()
    }

    /// An empty cache.
    pub fn new() -> (c: Self)
        ensures
            c.wf(),
            c.direct_deps.map() == Map::<Seq<char>, Vec<String>>::empty(),
            c.reverse_deps.map() == Map::<Seq<char>, Vec<String>>::empty(),
            c.built_at == 0,
            c.package_count == 0,
            c.max_depth == 0,
    {
        DependencyCache {
            direct_deps: StrMap::new(),
            reverse_deps: StrMap::new(),
            built_at: 0,
            package_count: 0,
            max_depth: 0,
        }
    }

    /// Whether no package's dependencies are known.
    pub fn is_empty(&self) -> (b: bool)
        requires
            self.wf(),
        ensures
            b == (self.direct_deps.map() == Map::<Seq<char>, Vec<String>>::empty()),
    {
        self.direct_deps.is_empty()
    }

    /// The direct dependencies of `package`, if known.
    pub fn get_deps(&self, package: &str) -> (r: Option<&Vec<String>>)
        requires
            self.wf(),
        ensures
            r is Some == self.direct_deps.map().contains_key(package@),
            r matches Some(d) ==> *d == self.direct_deps.map()[package@],
    {
        self.direct_deps.get(package)
    }

    /// The packages known to depend on `package`, if recorded.
    pub fn get_reverse_deps(&self, package: &str) -> (r: Option<&Vec<String>>)
        requires
            self.wf(),
        ensures
            r is Some == self.reverse_deps.map().contains_key(package@),
            r matches Some(d) ==> *d == self.reverse_deps.map()[package@],
    {
        self.reverse_deps.get(package)
    }

    /// Whether the direct dependencies of `package` are known.
    pub fn has_package(&self, package: &str) -> (b: bool)
        requires
            self.wf(),
        ensures
            b == self.direct_deps.map().contains_key(package@),
    {
        self.direct_deps.contains_key(package)
    }
}

/// The events that the positions `idx` pick out of `events`, skipping positions past the end.
pub open spec fn indexed(events: Seq<PackageEvent>, idx: Seq<usize>) -> Seq<PackageEvent>
    decreases idx.len(),
{
    if idx.len() == 0 {
        Seq::<PackageEvent>::empty()
    } else {
        let r = indexed(events, idx.drop_last());
        if (idx.last() as int) < events.len() {
            r.push(events[idx.last() as int])
        } else {
            r
        }
    }
}

/// The events that count as uses, in order.
pub open spec fn use_events(s: Seq<PackageEvent>) -> Seq<PackageEvent>
    decreases s.len(),
{
    if s.len() == 0 {
        s
    } else if counts_as_use(s.last()) {
        use_events(s.drop_last()).push(s.last())
    } else {
        use_events(s.drop_last())
    }
}

/// The largest timestamp among `s`, if any.
pub open spec fn max_timestamp(s: Seq<PackageEvent>) -> Option<i64>
    decreases s.len(),
{
    if s.len() == 0 {
        None
    } else {
        match max_timestamp(s.drop_last()) {
            None => Some(s.last().timestamp),
            Some(m) => Some(if s.last().timestamp >= m { s.last().timestamp } else { m }),
        }
    }
}

/// The timestamp of the first `INSTALL` event of `s`, if any.
pub open spec fn first_install(s: Seq<PackageEvent>) -> Option<i64>
    decreases s.len(),
{
    if s.len() == 0 {
        None
    } else if s[0].action@ == "INSTALL"@ {
        Some(s[0].timestamp)
    } else {
        first_install(s.drop_first())
    }
}

/// The names of packages that some event of `s` counts as used.
pub open spec fn used_names(s: Seq<PackageEvent>) -> Set<Seq<char>> {
    Set::new(|n: Seq<char>| exists|i: int| 0 <= i < s.len() && counts_as_use(s[i]) && s[i].package@ == n)
}

/// The names of packages that some event of `s` counts as used, each once, in order of first use.
pub open spec fn used_order(s: Seq<PackageEvent>) -> Seq<Seq<char>>
    decreases s.len(),
{
    if s.len() == 0 {
        Seq::empty()
    } else {
        let r = used_order(s.drop_last());
        if counts_as_use(s.last()) && !r.contains(s.last().package@) {
            r.push(s.last().package@)
        } else {
            r
        }
    }
}

/// The names in order of first use are distinct and are exactly the used names.
pub proof fn lemma_used_order(s: Seq<PackageEvent>)
    ensures
        used_order(s).no_duplicates(),
        used_order(s).to_set() == used_names(s),
    decreases s.len(),
{
    if s.len() > 0 {
        let p = s.drop_last();
        lemma_used_order(p);
        let r = used_order(p);
        assert forall|n: Seq<char>| used_order(s).to_set().contains(n) <==> used_names(s).contains(n) by {
            if used_names(p).contains(n) {
                let j = choose|j: int| 0 <= j < p.len() && counts_as_use(p[j]) && p[j].package@ == n;
                assert(s[j] == p[j]);
            }
            if used_names(s).contains(n) {
                let j = choose|j: int| 0 <= j < s.len() && counts_as_use(s[j]) && s[j].package@ == n;
                if j < s.len() - 1 {
                    assert(p[j] == s[j]);
                    assert(used_names(p).contains(n));
                    assert(r.to_set().contains(n));
                }
            }
            if r.contains(n) {
                assert(r.to_set().contains(n));
                let j = choose|j: int| 0 <= j < p.len() && counts_as_use(p[j]) && p[j].package@ == n;
                assert(s[j] == p[j]);
            }
            if used_order(s).to_set().contains(n) && !r.contains(n) {
                assert(used_order(s).contains(n));
                assert(used_order(s) == r.push(s.last().package@));
                let q = used_order(s).index_of(n);
                if q < r.len() {
                    assert(r[q] == n);
                }
                assert(n == s.last().package@);
            }
            if used_order(s) == r.push(s.last().package@) && n == s.last().package@ {
                assert(used_order(s)[r.len() as int] == n);
            }
            if used_order(s) == r.push(s.last().package@) && r.contains(n) {
                let q = r.index_of(n);
                assert(used_order(s)[q] == n);
            }
        }
        assert(used_order(s).to_set() =~= used_names(s));
        if counts_as_use(s.last()) && !r.contains(s.last().package@) {
            assert forall|a: int, b: int| 0 <= a < b < used_order(s).len() implies used_order(s)[a] != used_order(s)[b] by {
                if b == r.len() {
                    assert(r.contains(r[a]));
                }
            }
        }
    }
}

/// The log events, with the positions of each package's events.
pub struct UsageCache {
    pub events: Vec<PackageEvent>,
    pub package_index: StrMap<Vec<usize>>,
    pub loaded_at: i64,
    pub last_event_timestamp: i64,
    pub event_count: usize,
}

impl UsageCache {
    /// The index map is well formed.
    pub open spec fn wf(&self) -> bool {
        self.package_index.wf()
    }

    /// The events recorded for `p`, in the order the index lists them.
    pub open spec fn package_events(&self, p: Seq<char>) -> Seq<PackageEvent> {
        if self.package_index.map().contains_key(p) {
            indexed(self.events@, self.package_index.map()[p]@)
        } else {
            Seq::<PackageEvent>::empty()
        }
    }

    /// An empty cache.
    pub fn new() -> (c: Self)
        ensures
            c.wf(),
            c.events@.len() == 0,
            c.package_index.map() == Map::<Seq<char>, Vec<usize>>::empty(),
            c.loaded_at == 0,
            c.last_event_timestamp == 0,
            c.event_count == 0,
    {
        UsageCache {
            events: Vec::new(),
            package_index: StrMap::new(),
            loaded_at: 0,
            last_event_timestamp: 0,
            event_count: 0,
        }
    }

    /// Whether no event is held.
    pub fn is_empty(&self) -> (b: bool)
        ensures
            b == (self.events@.len() == 0),
    {
        self.events.len() == 0
    }

    /// The events picked by positions `idx`, as copies.
    fn collect_indexed(&self, idx: &Vec<usize>) -> (r: Vec<PackageEvent>)
        ensures
            r@ == indexed(self.events@, idx@),
    {
        let mut r: Vec<PackageEvent> = Vec::new();
        let mut i: usize = 0;
        while i < idx.len()
            invariant
                i <= idx@.len(),
                r@ == indexed(self.events@, idx@.take(i as int)),
            decreases idx@.len() - i,
        {
            assert(idx@.take(i + 1).drop_last() =~= idx@.take(i as int));
            let j = idx[i];
            if j < self.events.len() {
                r.push(self.events[j].clone());
            }
            i = i + 1;
        }
        assert(idx@.take(idx@.len() as int) =~= idx@);
        r
    }

    /// The events of `package`, in the order of the index.
    pub fn get_events_for_package(&self, package: &str) -> (r: Vec<PackageEvent>)
        requires
            self.wf(),
        ensures
            r@ == self.package_events(package@),
    {
        match self.package_index.get(package) {
            Some(idx) => self.collect_indexed(idx),
            None => Vec::new(),
        }
    }

    /// The latest timestamp among the `USE` and `INSTALL` events of `package`.
    pub fn get_last_use(&self, package: &str) -> (r: Option<i64>)
        requires
            self.wf(),
        ensures
            r == max_timestamp(use_events(self.package_events(package@))),
    {
        let evs = self.get_events_for_package(package);
        let mut best: Option<i64> = None;
        let mut i: usize = 0;
        while i < evs.len()
            invariant
                i <= evs@.len(),
                best == max_timestamp(use_events(evs@.take(i as int))),
            decreases evs@.len() - i,
        {
            assert(evs@.take(i + 1).drop_last() =~= evs@.take(i as int));
            proof {
                let t1 = evs@.take(i + 1);
                assert(t1.last() == evs@[i as int]);
                assert(use_events(t1) == if counts_as_use(evs@[i as int]) {
                    use_events(evs@.take(i as int)).push(evs@[i as int])
                } else {
                    use_events(evs@.take(i as int))
                });
                assert(use_events(evs@.take(i as int)).push(evs@[i as int]).drop_last() =~= use_events(
                    evs@.take(i as int),
                ));
            }
            if is_use_event(&evs[i]) {
                let t = evs[i].timestamp;
                best = match best {
                    None => Some(t),
                    Some(m) => Some(if t >= m { t } else { m }),
                };
            }
            i = i + 1;
        }
        assert(evs@.take(evs@.len() as int) =~= evs@);
        best
    }

    /// The number of `USE` and `INSTALL` events of `package`.
    pub fn get_usage_count(&self, package: &str) -> (n: usize)
        requires
            self.wf(),
        ensures
            n == use_events(self.package_events(package@)).len(),
    {
        let evs = self.get_events_for_package(package);
        let mut n: usize = 0;
        let mut i: usize = 0;
        while i < evs.len()
            invariant
                i <= evs@.len(),
                n == use_events(evs@.take(i as int)).len(),
                n <= i,
            decreases evs@.len() - i,
        {
            assert(evs@.take(i + 1).drop_last() =~= evs@.take(i as int));
            proof {
                let t1 = evs@.take(i + 1);
                assert(t1.last() == evs@[i as int]);
            }
            if is_use_event(&evs[i]) {
                n = n + 1;
            }
            i = i + 1;
        }
        assert(evs@.take(evs@.len() as int) =~= evs@);
        n
    }

    /// The packages with at least one `USE` or `INSTALL` event, each once, in order of first use.
    pub fn get_used_packages(&self) -> (r: Vec<String>)
        ensures
            views_of(r@) == used_order(self.events@),
            views_of(r@).no_duplicates(),
            views_of(r@).to_set() == used_names(self.events@),
    {
        let mut r: Vec<String> = Vec::new();
        let mut i: usize = 0;
        while i < self.events.len()
            invariant
                i <= self.events@.len(),
                views_of(r@) == used_order(self.events@.take(i as int)),
            decreases self.events@.len() - i,
        {
            let ghost before = views_of(r@);
            let e = &self.events[i];
            proof {
                let t1 = self.events@.take(i + 1);
                assert(t1.drop_last() =~= self.events@.take(i as int));
                assert(t1.last() == *e);
            }
            if is_use_event(e) && !contains_name(&r, e.package.as_str()) {
                r.push(e.package.clone());
                assert(views_of(r@) =~= before.push(e.package@));
            }
            i = i + 1;
        }
        assert(self.events@.take(self.events@.len() as int) =~= self.events@);
        proof {
            lemma_used_order(self.events@);
        }
        r
    }

    /// The timestamp of the first `INSTALL` event of `package`, in index order.
    pub fn get_install_time(&self, package: &str) -> (r: Option<i64>)
        requires
            self.wf(),
        ensures
            r == first_install(self.package_events(package@)),
    {
        let evs = self.get_events_for_package(package);
        let mut i: usize = 0;
        assert(evs@.skip(0) =~= evs@);
        while i < evs.len()
            invariant
                i <= evs@.len(),
                evs@ == self.package_events(package@),
                first_install(evs@) == first_install(evs@.skip(i as int)),
            decreases evs@.len() - i,
        {
            assert(evs@.skip(i as int)[0] == evs@[i as int]);
            assert(evs@.skip(i as int).len() > 0);
            if action_is(&evs[i], "INSTALL") {
                assert(first_install(evs@.skip(i as int)) == Some(evs@[i as int].timestamp));
                return Some(evs[i].timestamp);
            }
            assert(evs@.skip(i as int).drop_first() =~= evs@.skip(i + 1));
            i = i + 1;
        }
        assert(evs@.skip(i as int).len() == 0);
        None
    }
}

/// The name a file belongs to: the whole name if it is a key, else its part before the first `.`.
pub open spec fn lookup_file(mapping: Map<Seq<char>, String>, filename: Seq<char>) -> Option<Seq<char>> {
    if mapping.contains_key(filename) {
        Some(mapping[filename]@)
    } else if mapping.contains_key(before_first(filename, '.')) {
        Some(mapping[before_first(filename, '.')]@)
    } else {
        None
    }
}

/// Resolves a file name through a map, trying its stem (part before the first `.`) second.
pub fn lookup_file_in(mapping: &StrMap<String>, filename: &str) -> (r: Option<String>)
    requires
        mapping.wf(),
    ensures
        match r {
            Some(s) => lookup_file(mapping.map(), filename@) == Some(s@),
            None => lookup_file(mapping.map(), filename@) is None,
        },
{
    if let Some(p) = mapping.get(filename) {
        return Some(p.clone());
    }
    let pieces = split_on(filename, '.');
    let stem = &pieces[0];
    proof {
        assert(views_of(pieces@)[0] == stem@);
    }
    match mapping.get(stem.as_str()) {
        Some(p) => Some(p.clone()),
        None => None,
    }
}

/// Which package owns which file name.
pub struct FileMapCache {
    pub mapping: StrMap<String>,
    pub built_at: i64,
    pub total_entries: usize,
}

impl FileMapCache {
    /// The map is well formed.
    pub open spec fn wf(&self) -> bool {
        self.mapping.wf()
    }

    /// An empty cache.
    pub fn new() -> (c: Self)
        ensures
            c.wf(),
            c.mapping.map() == Map::<Seq<char>, String>::empty(),
            c.built_at == 0,
            c.total_entries == 0,
    {
        FileMapCache { mapping: StrMap::new(), built_at: 0, total_entries: 0 }
    }

    /// Whether no file is mapped.
    pub fn is_empty(&self) -> (b: bool)
        requires
            self.wf(),
        ensures
            b == (self.mapping.map() == Map::<Seq<char>, String>::empty()),
    {
        self.mapping.is_empty()
    }

    /// The package owning `filename`, trying the name before its first `.` second.
    pub fn get_package_for_file(&self, filename: &str) -> (r: Option<String>)
        requires
            self.wf(),
        ensures
            match r {
                Some(s) => lookup_file(self.mapping.map(), filename@) == Some(s@),
                None => lookup_file(self.mapping.map(), filename@) is None,
            },
    {
        lookup_file_in(&self.mapping, filename)
    }
}

/// A cached package with when it was written.
#[derive(Debug)]
pub struct CacheEntry {
    pub package: Package,
    pub last_updated: i64,
    pub scan_duration: u64,
}

/// The contents of an export file.
#[derive(Debug)]
pub struct ExportFormat {
    pub version: String,
    pub timestamp: i64,
    pub packages: Vec<Package>,
    pub metadata: ExportMetadata,
}

/// Where an export came from and what it holds.
#[derive(Debug)]
pub struct ExportMetadata {
    pub source: String,
    pub host: String,
    pub total_packages: usize,
    pub total_size: u64,
}

/// How risky a removal is.
#[derive(Debug, Clone, Copy, PartialEq, Eq, Structural)]
pub enum RiskLevel {
    Low,
    Medium,
    High,
    Critical,
}

impl RiskLevel {
    /// The printed name of a level.
    pub open spec fn name(self) -> Seq<char> {
        match self {
            RiskLevel::Low => "LOW"@,
            RiskLevel::Medium => "MEDIUM"@,
            RiskLevel::High => "HIGH"@,
            RiskLevel::Critical => "CRITICAL"@,
        }
    }

    /// The printed name of the level.
    pub fn to_string(&self) -> (s: String)
        ensures
            s@ == self.name(),
    {
        match self {
            RiskLevel::Low => owned("LOW"),
            RiskLevel::Medium => owned("MEDIUM"),
            RiskLevel::High => owned("HIGH"),
            RiskLevel::Critical => owned("CRITICAL"),
        }
    }
}

/// The outcome of a risk analysis of removing unused packages.
#[derive(Debug)]
pub struct AnalysisResult {
    pub safe_to_remove: Vec<UnusedPackage>,
    pub protected: Vec<UnusedPackage>,
    pub system_critical: Vec<String>,
    pub total_savings: u64,
    pub risk_level: RiskLevel,
}

/// The dependencies below a package, the packages above it and the cycles among them.
#[derive(Debug)]
pub struct DependencyGraph {
    pub root: String,
    pub dependencies: Vec<DependencyNode>,
    pub dependents: Vec<String>,
    pub depth: usize,
    pub cycles: Vec<Vec<String>>,
    pub total_nodes: usize,
}

/// One edge of a dependency graph: `parent` depends on `name`.
#[derive(Debug)]
pub struct DependencyNode {
    pub name: String,
    pub depth: usize,
    pub parent: String,
    pub version: Option<String>,
    pub source: PackageSource,
}

/// The packages only one side has, the names both have, and differing versions.
#[derive(Debug)]
pub struct Comparison {
    pub only_current: Vec<Package>,
    pub only_other: Vec<Package>,
    pub common: Vec<String>,
    pub version_differences: Vec<VersionDiff>,
}

/// A package whose versions differ between two lists.
#[derive(Debug)]
pub struct VersionDiff {
    pub package: String,
    pub current_version: Option<String>,
    pub other_version: Option<String>,
}

/// The kinds of logged actions.
#[derive(Debug, Clone, Copy, PartialEq, Eq, Structural)]
pub enum LogAction {
    Install,
    Remove,
    Update,
    Use,
    Scan,
    Error,
    Warning,
    Info,
}

impl LogAction {
    /// The name an action is logged under.
    pub open spec fn name(self) -> Seq<char> {
        match self {
            LogAction::Install => "INSTALL"@,
            LogAction::Remove => "REMOVE"@,
            LogAction::Update => "UPDATE"@,
            LogAction::Use => "USE"@,
            LogAction::Scan => "SCAN"@,
            LogAction::Error => "ERROR"@,
            LogAction::Warning => "WARNING"@,
            LogAction::Info => "INFO"@,
        }
    }

    /// The name the action is logged under.
    pub fn to_string(&self) -> (s: String)
        ensures
            s@ == self.name(),
    {
        match self {
            LogAction::Install => owned("INSTALL"),
            LogAction::Remove => owned("REMOVE"),
            LogAction::Update => owned("UPDATE"),
            LogAction::Use => owned("USE"),
            LogAction::Scan => owned("SCAN"),
            LogAction::Error => owned("ERROR"),
            LogAction::Warning => owned("WARNING"),
            LogAction::Info => owned("INFO"),
        }
    }
}

/// Package statistics.
#[derive(Debug)]
pub struct Stats {
    pub total_packages: usize,
    pub used_packages: usize,
    pub total_size: u64,
    pub by_source: Vec<(String, usize, u64)>,
    pub largest_packages: Vec<Package>,
    pub oldest_packages: Vec<Package>,
    pub newest_packages: Vec<Package>,
    pub average_package_size: u64,
    pub total_log_entries: usize,
    pub total_install_events: usize,
    pub total_remove_events: usize,
}

/// The outcome of checking packages against the disk.
#[derive(Debug)]
pub struct VerificationResult {
    pub verified: Vec<String>,
    pub missing: Vec<String>,
    pub corrupted: Vec<String>,
    pub size_mismatch: Vec<(String, u64, u64)>,
    pub total_issues: usize,
    pub fixable: usize,
}

} // verus!
