//! Finding installed packages: reading what the package managers print, recording the
//! programs found on disk, and merging what the sources found.
//!
//! Running the package managers and walking the file system are left to the caller,
//! which hands in what it read.

use vstd::prelude::*;
use crate::analyzer::distinct_names;
use crate::cache::models_of;
use crate::config::{excluded_by, matches_any, regex_compiles};
use crate::graph::contains_name;
use crate::models::{Package, PackageModel, PackageSource, clone_opt_string, opt_view};
use crate::show::{field_value, strip_prefixes};
use crate::stats::date_or_zero;
use crate::strmap::views_of;
use crate::text::{
    chars_of, join_spec, lines_of, lines_spec, owned, path_join, push_str, starts_with, starts_with_spec,
    str_eq, trim_spec, words, words_of,
};
use crate::tracker::names_of;

verus! {

broadcast use vstd::string::group_string_axioms;

/// Finds installed packages.
pub struct PackageScanner;

/// Why a scan of a source fails.
#[derive(Debug, Clone, Copy, PartialEq, Eq, Structural)]
pub enum ScanError {
    /// The pattern that reads program versions does not compile.
    BadVersionPattern,
}

/// Where the binary of a `pkg` package lives.
pub open spec fn pkg_bin_path(name: Seq<char>) -> Seq<char> {
    "/data/data/com.termux/files/usr/bin/"@ + name
}

/// A package known only by name, version, source, path and size.
pub open spec fn bare_package(
    name: Seq<char>,
    version: Option<Seq<char>>,
    source: PackageSource,
    path: Seq<char>,
    size: Option<u64>,
) -> PackageModel {
    PackageModel {
        name,
        version,
        source,
        install_path: path,
        size,
        dependencies: None,
        installed_date: None,
        last_used: None,
        usage_count: None,
        checksum: None,
    }
}

/// Whether `s` holds a package of the name and source of `p` (packages are told apart by
/// name and source alone).
pub open spec fn holds_same(s: Seq<PackageModel>, p: PackageModel) -> bool {
    exists|i: int| 0 <= i < s.len() && (#[trigger] s[i]).name == p.name && s[i].source == p.source
}

/// `s` as a set of packages told apart by name and source, with `p` added: unchanged
/// when it already holds a package of that name and source.
pub open spec fn set_add(s: Seq<PackageModel>, p: PackageModel) -> Seq<PackageModel> {
    if holds_same(s, p) {
        s
    } else {
        s.push(p)
    }
}

/// The lines after the header line.
pub open spec fn after_header(lines: Seq<Seq<char>>) -> Seq<Seq<char>> {
    if lines.len() == 0 {
        lines
    } else {
        lines.skip(1)
    }
}

/// The packages listed by `pkg list-installed` lines: each line of at least two words
/// gives the package named by the first, at the version given by the second.
pub open spec fn pkg_list_packages(ls: Seq<Seq<char>>) -> Seq<PackageModel>
    decreases ls.len(),
{
    if ls.len() == 0 {
        Seq::empty()
    } else {
        let r = pkg_list_packages(ls.drop_last());
        let w = words(ls.last());
        if w.len() >= 2 {
            set_add(r, bare_package(w[0], Some(w[1]), PackageSource::Pkg, pkg_bin_path(w[0]), None))
        } else {
            r
        }
    }
}

/// `r` with the packages of `dpkg -l` lines added: each line starting `ii` with at least
/// two words names a package by its second word, at the version of its third (if any);
/// it is added unless a package of that name is already there.
pub open spec fn dpkg_packages(r: Seq<PackageModel>, ls: Seq<Seq<char>>) -> Seq<PackageModel>
    decreases ls.len(),
{
    if ls.len() == 0 {
        r
    } else {
        let r1 = dpkg_packages(r, ls.drop_last());
        let line = ls.last();
        let w = words(line);
        if starts_with_spec(line, "ii"@) && w.len() >= 2 && !names_of(r1).contains(w[1]) {
            let version = if w.len() > 2 {
                Some(w[2])
            } else {
                None
            };
            set_add(r1, bare_package(w[1], version, PackageSource::Pkg, pkg_bin_path(w[1]), None))
        } else {
            r1
        }
    }
}

/// The `pkg` packages found from the printout of `pkg list-installed` and, when it ran
/// successfully, of `dpkg -l`.
pub open spec fn pkg_scan(list_out: Seq<char>, dpkg_out: Option<Seq<char>>) -> Seq<PackageModel> {
    let listed = pkg_list_packages(after_header(lines_spec(list_out)));
    match dpkg_out {
        Some(d) => dpkg_packages(listed, lines_spec(d)),
        None => listed,
    }
}

/// The pattern that reads a program's version from its `--version` output.
pub open spec fn version_pattern() -> Seq<char> {
    "v?(\\d+\\.\\d+\\.\\d+)"@
}

/// The first capture group of the first match of the compiled `pattern` in `text`
/// (`regex::Regex::captures`, then `get(1)`), if any.
pub uninterp spec fn regex_group1(pattern: Seq<char>, text: Seq<char>) -> Option<Seq<char>>;

/// Compiles `pattern` with `regex::Regex::new` and, if that succeeds, gives the first
/// capture group of its first match in `text` (`captures`, then `get(1)`); `None` when
/// the pattern does not compile.
#[verifier::external_body]
fn regex_capture(pattern: &str, text: &str) -> (r: Option<Option<String>>)
    ensures
        r is Some == regex_compiles(pattern@),
        r matches Some(c) ==> opt_view(c) == regex_group1(pattern@, text@),
{
    match regex::Regex::new(pattern) {
        Ok(re) => Some(re.captures(text).and_then(|c| c.get(1)).map(|m| m.as_str().to_string())),
        Err(_) => None,
    }
}

/// Whether `s` ends with `p`.
pub open spec fn ends_with_spec(s: Seq<char>, p: Seq<char>) -> bool {
    p.len() <= s.len() && s.skip(s.len() - p.len()) == p
}

/// Whether a file name marks a directory holding a program built from source: a
/// `Makefile`, a `configure` script or a shell script.
pub open spec fn build_marker(name: Seq<char>) -> bool {
    name == "Makefile"@ || name == "configure"@ || ends_with_spec(name, ".sh"@)
}

/// The packages of all sources, as a set, merged so that each name is kept once.
pub open spec fn union_all(sources: Seq<Seq<PackageModel>>) -> Seq<PackageModel>
    decreases sources.len(),
{
    if sources.len() == 0 {
        Seq::empty()
    } else {
        add_all(union_all(sources.drop_last()), sources.last())
    }
}

/// `s` as a set with the packages of `t` added in order.
pub open spec fn add_all(s: Seq<PackageModel>, t: Seq<PackageModel>) -> Seq<PackageModel>
    decreases t.len(),
{
    if t.len() == 0 {
        s
    } else {
        set_add(add_all(s, t.drop_last()), t.last())
    }
}

/// The first `pkg` package of `ps` called `n`.
pub open spec fn first_pkg_named(ps: Seq<PackageModel>, n: Seq<char>) -> Option<PackageModel>
    decreases ps.len(),
{
    if ps.len() == 0 {
        None
    } else {
        match first_pkg_named(ps.drop_last(), n) {
            Some(p) => Some(p),
            None => if ps.last().name == n && ps.last().source == PackageSource::Pkg {
                Some(ps.last())
            } else {
                None
            },
        }
    }
}

/// The first package of `ps` called `n` with the latest installed date (none counts as 0).
pub open spec fn latest_named(ps: Seq<PackageModel>, n: Seq<char>) -> Option<PackageModel>
    decreases ps.len(),
{
    if ps.len() == 0 {
        None
    } else {
        let b = latest_named(ps.drop_last(), n);
        let p = ps.last();
        if p.name != n {
            b
        } else {
            match b {
                None => Some(p),
                Some(q) => if date_or_zero(p) > date_or_zero(q) {
                    Some(p)
                } else {
                    Some(q)
                },
            }
        }
    }
}

/// The package kept for the name `n` of `ps`: a `pkg` one if there is one, else the
/// latest installed.
pub open spec fn kept_for(ps: Seq<PackageModel>, n: Seq<char>) -> PackageModel {
    match first_pkg_named(ps, n) {
        Some(p) => p,
        None => latest_named(ps, n).unwrap(),
    }
}

/// `ps` with one package per name, in order of first appearance of the names.
pub open spec fn merged_by_name(ps: Seq<PackageModel>) -> Seq<PackageModel> {
    distinct_names(ps).map_values(|n: Seq<char>| kept_for(ps, n))
}

/// A package with its missing size, installed date and checksum filled in from what
/// was found on disk.
pub open spec fn enriched(
    p: PackageModel,
    size: Option<u64>,
    installed: Option<i64>,
    checksum: Option<Seq<char>>,
) -> PackageModel {
    PackageModel {
        size: if p.size is None {
            size
        } else {
            p.size
        },
        installed_date: if p.installed_date is None {
            installed
        } else {
            p.installed_date
        },
        checksum: if p.checksum is None {
            checksum
        } else {
            p.checksum
        },
        ..p
    }
}

/// The values of the `Location:` lines of `pip show` output, in order.
pub open spec fn location_values(ls: Seq<Seq<char>>) -> Seq<Seq<char>>
    decreases ls.len(),
{
    if ls.len() == 0 {
        Seq::empty()
    } else if starts_with_spec(ls.last(), "Location:"@) {
        location_values(ls.drop_last()).push(trim_spec(strip_prefixes(ls.last(), "Location:"@)))
    } else {
        location_values(ls.drop_last())
    }
}

/// Adds `p` to the set of packages `ps` (nothing changes when one of the same name and
/// source is there).
fn add_package(ps: &mut Vec<Package>, p: Package)
    ensures
        models_of(final(ps)@) == set_add(models_of(old(ps)@), p@),
{
    let ghost m = models_of(ps@);
    let mut i: usize = 0;
    while i < ps.len()
        invariant
            i <= ps@.len(),
            m == models_of(ps@),
            forall|j: int| 0 <= j < i ==> !(#[trigger] m[j].name == p@.name && m[j].source == p@.source),
        decreases ps@.len() - i,
    {
        if str_eq(ps[i].name.as_str(), p.name.as_str()) && ps[i].source == p.source {
            assert(m[i as int].name == p@.name && m[i as int].source == p@.source);
            assert(holds_same(m, p@));
            return;
        }
        i = i + 1;
    }
    let ghost pm = p@;
    ps.push(p);
    assert(models_of(ps@) =~= m.push(pm));
}

/// A package known only by name, version, source, path and size.
fn new_package(name: String, version: Option<String>, source: PackageSource, path: String, size: Option<u64>) -> (p:
    Package)
    ensures
        p@ == bare_package(name@, opt_view(version), source, path@, size),
{
    Package {
        name,
        version,
        source,
        install_path: path,
        size,
        dependencies: None,
        installed_date: None,
        last_used: None,
        usage_count: None,
        checksum: None,
    }
}

/// Whether a package of `ps` is called `name`.
fn has_name(ps: &Vec<Package>, name: &str) -> (b: bool)
    ensures
        b == names_of(models_of(ps@)).contains(name@),
{
    let ghost m = models_of(ps@);
    let mut i: usize = 0;
    while i < ps.len()
        invariant
            i <= ps@.len(),
            m == models_of(ps@),
            forall|j: int| 0 <= j < i ==> m[j].name != name@,
        decreases ps@.len() - i,
    {
        if str_eq(ps[i].name.as_str(), name) {
            assert(names_of(m)[i as int] == name@);
            return true;
        }
        i = i + 1;
    }
    proof {
        if names_of(m).contains(name@) {
            let q = names_of(m).index_of(name@);
            assert(names_of(m)[q] == m[q].name);
        }
    }
    false
}

/// The binary path of the `pkg` package `name`.
fn pkg_path(name: &str) -> (s: String)
    ensures
        s@ == pkg_bin_path(name@),
{
    let mut s = owned("/data/data/com.termux/files/usr/bin/");
    push_str(&mut s, name);
    s
}

impl PackageScanner {
    /// The `pkg` packages found from the printout of `pkg list-installed` and, when it
    /// ran successfully, of `dpkg -l`.
    #[verifier::rlimit(30)]
    pub fn scan_pkg(list_out: &str, dpkg_out: Option<&str>) -> (r: Vec<Package>)
        ensures
            models_of(r@) == pkg_scan(
                list_out@,
                match dpkg_out {
                    Some(d) => Some(d@),
                    None => None,
                },
            ),
    {
        let lines = lines_of(list_out);
        let ghost lv = views_of(lines@);
        let ghost body = after_header(lv);
        let n = lines.len();
        let off: usize = if n > 0 {
            1
        } else {
            0
        };
        let mut packages: Vec<Package> = Vec::new();
        let mut j: usize = 0;
        assert(body.take(0) =~= Seq::<Seq<char>>::empty());
        while off + j < n
            invariant
                lv == views_of(lines@),
                lv == lines_spec(list_out@),
                body == after_header(lv),
                n == lines@.len(),
                off == if n > 0 { 1usize } else { 0usize },
                body.len() == n - off,
                j <= body.len(),
                models_of(packages@) == pkg_list_packages(body.take(j as int)),
            decreases n - off - j,
        {
            let line = &lines[off + j];
            assert(body[j as int] == line@);
            let w = words_of(line.as_str());
            assert(body.take(j + 1).drop_last() =~= body.take(j as int));
            assert(body.take(j + 1).last() == line@);
            if w.len() >= 2 {
                let name = w[0].clone();
                let path = pkg_path(name.as_str());
                let p = new_package(name, Some(w[1].clone()), PackageSource::Pkg, path, None);
                add_package(&mut packages, p);
            }
            j = j + 1;
        }
        assert(body.take(body.len() as int) =~= body);
        match dpkg_out {
            None => packages,
            Some(d) => {
                let dl = lines_of(d);
                let ghost dv = views_of(dl@);
                let ghost listed = models_of(packages@);
                let mut k: usize = 0;
                while k < dl.len()
                    invariant
                        k <= dl@.len(),
                        dv == views_of(dl@),
                        dv == lines_spec(d@),
                        models_of(packages@) == dpkg_packages(listed, dv.take(k as int)),
                    decreases dl@.len() - k,
                {
                    let line = chars_of(dl[k].as_str());
                    let w = words_of(dl[k].as_str());
                    assert(dv.take(k + 1).drop_last() =~= dv.take(k as int));
                    assert(dv.take(k + 1).last() == line@);
                    if starts_with(&line, "ii") && w.len() >= 2 && !has_name(&packages, w[1].as_str()) {
                        let version = if w.len() > 2 {
                            Some(w[2].clone())
                        } else {
                            None
                        };
                        let name = w[1].clone();
                        let path = pkg_path(name.as_str());
                        let p = new_package(name, version, PackageSource::Pkg, path, None);
                        add_package(&mut packages, p);
                    }
                    k = k + 1;
                }
                assert(dv.take(dv.len() as int) =~= dv);
                packages
            },
        }
    }

    /// The version read from a program's `--version` output: the first capture of the
    /// version pattern, if it matches. Fails when the pattern does not compile.
    pub fn cargo_version(output: &str) -> (r: Result<Option<String>, ScanError>)
        ensures
            r is Ok == regex_compiles(version_pattern()),
            r matches Ok(v) ==> opt_view(v) == regex_group1(version_pattern(), output@),
            r matches Err(e) ==> e == ScanError::BadVersionPattern,
    {
        match regex_capture("v?(\\d+\\.\\d+\\.\\d+)", output) {
            Some(v) => Ok(v),
            None => Err(ScanError::BadVersionPattern),
        }
    }

    /// The cargo package of the program `name` at `path` (of `size` bytes), with the
    /// version read from its `--version` output when that ran successfully.
    pub fn cargo_package(name: &str, path: &str, size: u64, version_output: Option<&str>) -> (r: Result<
        Package,
        ScanError,
    >)
        ensures
            version_output is None ==> (r matches Ok(p) && p@ == bare_package(
                name@,
                None,
                PackageSource::Cargo,
                path@,
                Some(size),
            )),
            version_output matches Some(out) ==> (r is Ok == regex_compiles(version_pattern())),
            version_output matches Some(out) ==> (r matches Ok(p) ==> p@ == bare_package(
                name@,
                regex_group1(version_pattern(), out@),
                PackageSource::Cargo,
                path@,
                Some(size),
            )),
            r matches Err(e) ==> e == ScanError::BadVersionPattern,
    {
        let version = match version_output {
            None => None,
            Some(out) => match Self::cargo_version(out) {
                Ok(v) => v,
                Err(e) => {
                    return Err(e);
                },
            },
        };
        Ok(new_package(owned(name), version, PackageSource::Cargo, owned(path), Some(size)))
    }

    /// The values of the `Location:` lines of `pip show` output, in order.
    pub fn pip_locations(show_out: &str) -> (r: Vec<String>)
        ensures
            views_of(r@) == location_values(lines_spec(show_out@)),
    {
        let lines = lines_of(show_out);
        let ghost lv = views_of(lines@);
        let mut r: Vec<String> = Vec::new();
        let mut i: usize = 0;
        while i < lines.len()
            invariant
                i <= lines@.len(),
                lv == views_of(lines@),
                lv == lines_spec(show_out@),
                views_of(r@) == location_values(lv.take(i as int)),
            decreases lines@.len() - i,
        {
            let line = chars_of(lines[i].as_str());
            assert(lv.take(i + 1).drop_last() =~= lv.take(i as int));
            assert(lv.take(i + 1).last() == line@);
            if starts_with(&line, "Location:") {
                let ghost before = views_of(r@);
                let v = field_value(&line, "Location:");
                r.push(v);
                assert(views_of(r@) =~= before.push(v@));
            }
            i = i + 1;
        }
        assert(lv.take(lv.len() as int) =~= lv);
        r
    }

    /// Where the gem `name` at `version` is installed under `gem_home`.
    pub fn gem_install_path(gem_home: &str, name: &str, version: &str) -> (s: String)
        ensures
            s@ == join_spec(gem_home@, "gems/"@ + name@ + "-"@ + version@),
    {
        let mut rel = owned("gems/");
        push_str(&mut rel, name);
        push_str(&mut rel, "-");
        push_str(&mut rel, version);
        path_join(gem_home, rel.as_str())
    }

    /// Records the executable `name` found at `path` (of `size` bytes) as a manually
    /// installed package, unless an exclude pattern matches its name or a package of
    /// that name is already recorded.
    pub fn add_manual_binary(
        packages: &mut Vec<Package>,
        name: &str,
        path: &str,
        size: u64,
        exclude_patterns: &Vec<String>,
    )
        ensures
            models_of(final(packages)@) == if excluded_by(views_of(exclude_patterns@), name@) || names_of(
                models_of(old(packages)@),
            ).contains(name@) {
                models_of(old(packages)@)
            } else {
                models_of(old(packages)@).push(
                    bare_package(name@, None, PackageSource::Manual, path@, Some(size)),
                )
            },
    {
        if matches_any(exclude_patterns, name) || has_name(packages, name) {
            return;
        }
        let ghost before = models_of(packages@);
        packages.push(new_package(owned(name), None, PackageSource::Manual, owned(path), Some(size)));
        assert(models_of(packages@) =~= before.push(
            bare_package(name@, None, PackageSource::Manual, path@, Some(size)),
        ));
    }

    /// Whether a file name marks a directory holding a program built from source.
    pub fn is_build_marker(name: &str) -> (b: bool)
        ensures
            b == build_marker(name@),
    {
        if str_eq(name, "Makefile") || str_eq(name, "configure") {
            return true;
        }
        let v = chars_of(name);
        proof {
            reveal_strlit(".sh");
        }
        if v.len() < 3 {
            return false;
        }
        let n = v.len();
        let r = v[n - 3] == '.' && v[n - 2] == 's' && v[n - 1] == 'h';
        proof {
            let t = v@.skip(n - 3);
            if r {
                assert(t =~= ".sh"@);
            } else {
                assert(t[0] == v@[n - 3] && t[1] == v@[n - 2] && t[2] == v@[n - 1]);
                assert(".sh"@[0] == '.' && ".sh"@[1] == 's' && ".sh"@[2] == 'h');
            }
        }
        r
    }

    /// Records the program `dir_name` built in its own directory (at `bin_path`, the
    /// directory holding `size` bytes) as a manually installed package, unless a package
    /// of that name is already recorded.
    pub fn add_built_binary(packages: &mut Vec<Package>, dir_name: &str, bin_path: &str, size: Option<u64>)
        ensures
            models_of(final(packages)@) == if names_of(models_of(old(packages)@)).contains(dir_name@) {
                models_of(old(packages)@)
            } else {
                models_of(old(packages)@).push(
                    bare_package(dir_name@, None, PackageSource::Manual, bin_path@, size),
                )
            },
    {
        if has_name(packages, dir_name) {
            return;
        }
        let ghost before = models_of(packages@);
        packages.push(new_package(owned(dir_name), None, PackageSource::Manual, owned(bin_path), size));
        assert(models_of(packages@) =~= before.push(
            bare_package(dir_name@, None, PackageSource::Manual, bin_path@, size),
        ));
    }

    /// The directories under `home` searched for programs built from source.
    pub fn source_dirs_under(home: &str) -> (r: Vec<String>)
        ensures
            views_of(r@) == seq![join_spec(home@, "src"@), join_spec(home@, "build"@), join_spec(home@, "projects"@)],
    {
        let mut r: Vec<String> = Vec::new();
        r.push(path_join(home, "src"));
        r.push(path_join(home, "build"));
        r.push(path_join(home, "projects"));
        assert(views_of(r@) =~= seq![join_spec(home@, "src"@), join_spec(home@, "build"@), join_spec(home@, "projects"@)]);
        r
    }

    /// The directories searched for programs built from source: those under the home
    /// directory (or under Termux's home when it is unknown).
    pub fn source_dirs() -> (r: Vec<String>)
        ensures
            exists|h: Seq<char>| views_of(r@) == seq![join_spec(h, "src"@), join_spec(h, "build"@), join_spec(h, "projects"@)],
    {
        let home = match crate::config::home_dir_text() {
            Some(h) => h,
            None => owned("/data/data/com.termux/files/home"),
        };
        Self::source_dirs_under(home.as_str())
    }

    /// Keeps one package per name, in order of first appearance: a `pkg` one if there
    /// is one, else the latest installed (the first of those).
    #[verifier::rlimit(30)]
    pub fn merge_duplicates(packages: &mut Vec<Package>)
        ensures
            models_of(final(packages)@) == merged_by_name(models_of(old(packages)@)),
    {
        let ghost ps = models_of(packages@);
        let mut names: Vec<String> = Vec::new();
        let mut i: usize = 0;
        while i < packages.len()
            invariant
                i <= packages@.len(),
                ps == models_of(packages@),
                views_of(names@) == distinct_names(ps.take(i as int)),
            decreases packages@.len() - i,
        {
            assert(ps.take(i + 1).drop_last() =~= ps.take(i as int));
            assert(ps.take(i + 1).last() == packages@[i as int]@);
            if !contains_name(&names, packages[i].name.as_str()) {
                let ghost before = views_of(names@);
                names.push(packages[i].name.clone());
                assert(views_of(names@) =~= before.push(packages@[i as int]@.name));
            }
            i = i + 1;
        }
        assert(ps.take(ps.len() as int) =~= ps);
        let ghost dn = views_of(names@);
        proof {
            lemma_distinct_names_present(ps);
        }
        let mut kept: Vec<Package> = Vec::new();
        let mut k: usize = 0;
        while k < names.len()
            invariant
                k <= names@.len(),
                dn == views_of(names@),
                dn == distinct_names(ps),
                ps == models_of(packages@),
                forall|j: int| 0 <= j < dn.len() ==> names_of(ps).contains(#[trigger] dn[j]),
                models_of(kept@) == dn.take(k as int).map_values(|n: Seq<char>| kept_for(ps, n)),
            decreases names@.len() - k,
        {
            let name = names[k].as_str();
            assert(dn[k as int] == name@);
            let choice = choose_for(packages, name);
            let ghost before = models_of(kept@);
            kept.push(choice);
            assert(models_of(kept@) =~= before.push(kept_for(ps, name@)));
            assert(dn.take(k + 1).map_values(|n: Seq<char>| kept_for(ps, n)) =~= dn.take(k as int).map_values(
                |n: Seq<char>| kept_for(ps, n),
            ).push(kept_for(ps, dn[k as int])));
            k = k + 1;
        }
        assert(dn.take(dn.len() as int) =~= dn);
        *packages = kept;
    }

    /// A package with its missing size, installed date and checksum filled in from what
    /// was found on disk.
    pub fn enrich_package(pkg: Package, size: Option<u64>, installed: Option<i64>, checksum: Option<String>) -> (r:
        Package)
        ensures
            r@ == enriched(pkg@, size, installed, opt_view(checksum)),
    {
        let mut p = pkg;
        if p.size.is_none() {
            p.size = size;
        }
        if p.installed_date.is_none() {
            p.installed_date = installed;
        }
        if p.checksum.is_none() {
            p.checksum = checksum;
        }
        p
    }

    /// The packages found by the sources that could be scanned, as a set, with one
    /// package kept per name (see `merge_duplicates`).
    pub fn scan_all(sources: Vec<Vec<Package>>) -> (r: Vec<Package>)
        ensures
            models_of(r@) == merged_by_name(union_all(sources@.map_values(|s: Vec<Package>| models_of(s@)))),
    {
        let ghost sv = sources@.map_values(|s: Vec<Package>| models_of(s@));
        let mut all: Vec<Package> = Vec::new();
        let mut i: usize = 0;
        assert(sv.take(0) =~= Seq::<Seq<PackageModel>>::empty());
        while i < sources.len()
            invariant
                i <= sources@.len(),
                sv == sources@.map_values(|s: Vec<Package>| models_of(s@)),
                models_of(all@) == union_all(sv.take(i as int)),
            decreases sources@.len() - i,
        {
            let src = &sources[i];
            let ghost before = models_of(all@);
            let mut k: usize = 0;
            assert(models_of(src@).take(0) =~= Seq::<PackageModel>::empty());
            while k < src.len()
                invariant
                    k <= src@.len(),
                    models_of(all@) == add_all(before, models_of(src@).take(k as int)),
                decreases src@.len() - k,
            {
                assert(models_of(src@).take(k + 1).drop_last() =~= models_of(src@).take(k as int));
                assert(models_of(src@).take(k + 1).last() == src@[k as int]@);
                add_package(&mut all, src[k].clone());
                k = k + 1;
            }
            assert(models_of(src@).take(src@.len() as int) =~= models_of(src@));
            assert(sv.take(i + 1).drop_last() =~= sv.take(i as int));
            assert(sv.take(i + 1).last() == models_of(src@));
            i = i + 1;
        }
        assert(sv.take(sv.len() as int) =~= sv);
        Self::merge_duplicates(&mut all);
        all
    }
}

/// Every distinct name is the name of some package.
proof fn lemma_distinct_names_present(ps: Seq<PackageModel>)
    ensures
        forall|j: int| 0 <= j < distinct_names(ps).len() ==> names_of(ps).contains(#[trigger] distinct_names(ps)[j]),
    decreases ps.len(),
{
    if ps.len() > 0 {
        let q = ps.drop_last();
        lemma_distinct_names_present(q);
        assert forall|j: int| 0 <= j < distinct_names(ps).len() implies names_of(ps).contains(
            #[trigger] distinct_names(ps)[j],
        ) by {
            let r = distinct_names(q);
            if j < r.len() {
                assert(distinct_names(ps)[j] == r[j]);
                let t = names_of(q).index_of(r[j]);
                assert(names_of(ps)[t] == r[j]);
            } else {
                assert(distinct_names(ps)[j] == ps.last().name);
                assert(names_of(ps)[ps.len() - 1] == ps.last().name);
            }
        }
    }
}

/// A name that some package has gets a package kept for it.
proof fn lemma_latest_exists(ps: Seq<PackageModel>, n: Seq<char>)
    requires
        names_of(ps).contains(n),
    ensures
        latest_named(ps, n) is Some,
    decreases ps.len(),
{
    let q = ps.drop_last();
    if ps.last().name != n {
        let t = names_of(ps).index_of(n);
        assert(names_of(q)[t] == n);
        lemma_latest_exists(q, n);
    }
}

/// The package kept for the name `name`, which some package of `ps` has.
fn choose_for(ps: &Vec<Package>, name: &str) -> (r: Package)
    requires
        names_of(models_of(ps@)).contains(name@),
    ensures
        r@ == kept_for(models_of(ps@), name@),
{
    let ghost m = models_of(ps@);
    proof {
        lemma_latest_exists(m, name@);
    }
    let mut first_pkg: Option<usize> = None;
    let mut best: Option<usize> = None;
    let mut i: usize = 0;
    while i < ps.len()
        invariant
            i <= ps@.len(),
            m == models_of(ps@),
            match first_pkg {
                Some(k) => k < ps@.len() && first_pkg_named(m.take(i as int), name@) == Some(m[k as int]),
                None => first_pkg_named(m.take(i as int), name@) is None,
            },
            match best {
                Some(k) => k < ps@.len() && latest_named(m.take(i as int), name@) == Some(m[k as int]),
                None => latest_named(m.take(i as int), name@) is None,
            },
        decreases ps@.len() - i,
    {
        let p = &ps[i];
        assert(m.take(i + 1).drop_last() =~= m.take(i as int));
        assert(m.take(i + 1).last() == p@);
        if str_eq(p.name.as_str(), name) {
            if first_pkg.is_none() && p.source == PackageSource::Pkg {
                first_pkg = Some(i);
            }
            let d: i64 = match p.installed_date {
                Some(x) => x,
                None => 0,
            };
            match best {
                None => {
                    best = Some(i);
                },
                Some(k) => {
                    let e: i64 = match ps[k].installed_date {
                        Some(x) => x,
                        None => 0,
                    };
                    if d > e {
                        best = Some(i);
                    }
                },
            }
        }
        i = i + 1;
    }
    assert(m.take(m.len() as int) =~= m);
    match first_pkg {
        Some(k) => ps[k].clone(),
        None => match best {
            Some(k) => ps[k].clone(),
            None => {
                assert(false);
                ps[0].clone()
            },
        },
    }
}

/// The first `pkg` package of a name is one of the packages, with that name.
proof fn lemma_first_pkg_named(ps: Seq<PackageModel>, n: Seq<char>)
    ensures
        first_pkg_named(ps, n) matches Some(p) ==> ps.contains(p) && p.name == n && p.source == PackageSource::Pkg,
    decreases ps.len(),
{
    if ps.len() > 0 {
        let q = ps.drop_last();
        lemma_first_pkg_named(q, n);
        match first_pkg_named(q, n) {
            Some(p) => {
                let k = q.index_of(p);
                assert(ps[k] == q[k]);
            },
            None => {
                assert(ps[ps.len() - 1] == ps.last());
            },
        }
    }
}

/// The latest package of a name is one of the packages, with that name.
proof fn lemma_latest_named(ps: Seq<PackageModel>, n: Seq<char>)
    ensures
        latest_named(ps, n) matches Some(p) ==> ps.contains(p) && p.name == n,
    decreases ps.len(),
{
    if ps.len() > 0 {
        let q = ps.drop_last();
        lemma_latest_named(q, n);
        assert(ps[ps.len() - 1] == ps.last());
        match latest_named(q, n) {
            Some(p) => {
                let k = q.index_of(p);
                assert(ps[k] == q[k]);
            },
            None => {},
        }
    }
}

/// The distinct names are distinct.
proof fn lemma_distinct_names_distinct(ps: Seq<PackageModel>)
    ensures
        distinct_names(ps).no_duplicates(),
    decreases ps.len(),
{
    if ps.len() > 0 {
        lemma_distinct_names_distinct(ps.drop_last());
        let r = distinct_names(ps.drop_last());
        if !r.contains(ps.last().name) {
            assert forall|a: int, b: int| 0 <= a < b < r.len() + 1 implies r.push(ps.last().name)[a] != r.push(
                ps.last().name,
            )[b] by {
                if b == r.len() {
                    assert(r.contains(r[a]));
                }
            }
        }
    }
}

/// Merging keeps one package per name: the names kept are the distinct names, in order
/// of first appearance, and each package kept is one of the packages, with its name.
pub proof fn law_merge_one_per_name(ps: Seq<PackageModel>)
    ensures
        names_of(merged_by_name(ps)) == distinct_names(ps),
        names_of(merged_by_name(ps)).no_duplicates(),
        forall|j: int| 0 <= j < merged_by_name(ps).len() ==> ps.contains(#[trigger] merged_by_name(ps)[j]),
{
    lemma_distinct_names_present(ps);
    lemma_distinct_names_distinct(ps);
    let d = distinct_names(ps);
    assert forall|j: int| 0 <= j < d.len() implies #[trigger] kept_for(ps, d[j]).name == d[j] && ps.contains(
        kept_for(ps, d[j]),
    ) by {
        assert(names_of(ps).contains(d[j]));
        lemma_latest_exists(ps, d[j]);
        lemma_first_pkg_named(ps, d[j]);
        lemma_latest_named(ps, d[j]);
    }
    assert(names_of(merged_by_name(ps)) =~= d);
}

/// Whether line `k` of the `pkg list-installed` body `ls` has at least two words, the
/// first being `p`'s name and the second its version.
pub open spec fn from_list_line(ls: Seq<Seq<char>>, k: int, p: PackageModel) -> bool {
    &&& 0 <= k < ls.len()
    &&& words(ls[k]).len() >= 2
    &&& words(ls[k])[0] == p.name
    &&& p.version == Some(words(ls[k])[1])
}

/// Whether line `k` of the `dpkg -l` printout `ls` starts with `ii` and has at least two
/// words, the second being `p`'s name and the third (if any) its version.
pub open spec fn from_dpkg_line(ls: Seq<Seq<char>>, k: int, p: PackageModel) -> bool {
    &&& 0 <= k < ls.len()
    &&& starts_with_spec(ls[k], "ii"@)
    &&& words(ls[k]).len() >= 2
    &&& words(ls[k])[1] == p.name
    &&& p.version == if words(ls[k]).len() > 2 {
        Some(words(ls[k])[2])
    } else {
        None
    }
}

/// Whether some line of the `pkg list-installed` body `ls` gives `p`'s name and version.
pub open spec fn comes_from_list(ls: Seq<Seq<char>>, p: PackageModel) -> bool {
    exists|k: int| from_list_line(ls, k, p)
}

/// Whether some line of the `dpkg -l` printout `ls` gives `p`'s name and version.
pub open spec fn comes_from_dpkg(ls: Seq<Seq<char>>, p: PackageModel) -> bool {
    exists|k: int| from_dpkg_line(ls, k, p)
}

/// Packages read from `pkg list-installed` lines come from some line of the list.
proof fn lemma_list_versions(ls: Seq<Seq<char>>)
    ensures
        forall|j: int| 0 <= j < pkg_list_packages(ls).len() ==> comes_from_list(ls, #[trigger] pkg_list_packages(ls)[j]),
        forall|k: int| 0 <= k < ls.len() && words(#[trigger] ls[k]).len() >= 2 ==> names_of(pkg_list_packages(ls)).contains(words(ls[k])[0]),
    decreases ls.len(),
{
    if ls.len() > 0 {
        let q = ls.drop_last();
        lemma_list_versions(q);
        let r = pkg_list_packages(q);
        let v = pkg_list_packages(ls);
        let w = words(ls.last());
        assert(ls[ls.len() - 1] == ls.last());
        assert forall|k: int| 0 <= k < q.len() implies #[trigger] q[k] == ls[k] by {}
        assert forall|j: int| 0 <= j < v.len() implies comes_from_list(ls, #[trigger] v[j]) by {
            if j < r.len() {
                assert(v[j] == r[j]);
                assert(comes_from_list(q, r[j]));
                let k = choose|k: int| from_list_line(q, k, r[j]);
                assert(from_list_line(ls, k, v[j]));
            } else {
                let p = bare_package(w[0], Some(w[1]), PackageSource::Pkg, pkg_bin_path(w[0]), None);
                assert(w.len() >= 2);
                assert(v == set_add(r, p));
                assert(!holds_same(r, p));
                assert(v == r.push(p));
                assert(v[j] == p);
                assert(from_list_line(ls, ls.len() - 1, v[j]));
            }
        }
        assert forall|k: int| 0 <= k < ls.len() && words(#[trigger] ls[k]).len() >= 2 implies names_of(v).contains(
            words(ls[k])[0],
        ) by {
            if k < q.len() {
                assert(q[k] == ls[k]);
                let i = names_of(r).index_of(words(q[k])[0]);
                assert(names_of(r)[i] == r[i].name);
                assert(v[i] == r[i]);
                assert(names_of(v)[i] == v[i].name);
            } else {
                let p = bare_package(w[0], Some(w[1]), PackageSource::Pkg, pkg_bin_path(w[0]), None);
                if holds_same(r, p) {
                    let i = choose|i: int| 0 <= i < r.len() && (#[trigger] r[i]).name == p.name && r[i].source == p.source;
                    assert(names_of(v)[i] == v[i].name);
                } else {
                    assert(names_of(v)[r.len() as int] == v[r.len() as int].name);
                }
            }
        }
    }
}

/// Packages added from `dpkg -l` lines come from the earlier packages or from some line.
proof fn lemma_dpkg_versions(r: Seq<PackageModel>, ls: Seq<Seq<char>>)
    ensures
        forall|j: int| 0 <= j < dpkg_packages(r, ls).len() ==> r.contains(#[trigger] dpkg_packages(r, ls)[j])
            || comes_from_dpkg(ls, dpkg_packages(r, ls)[j]),
    decreases ls.len(),
{
    if ls.len() > 0 {
        let q = ls.drop_last();
        lemma_dpkg_versions(r, q);
        let r1 = dpkg_packages(r, q);
        let v = dpkg_packages(r, ls);
        assert(ls[ls.len() - 1] == ls.last());
        assert forall|j: int| 0 <= j < v.len() implies r.contains(#[trigger] v[j]) || comes_from_dpkg(ls, v[j]) by {
            if j < r1.len() {
                assert(v[j] == r1[j]);
                if !r.contains(r1[j]) {
                    assert(comes_from_dpkg(q, r1[j]));
                    let k = choose|k: int| from_dpkg_line(q, k, r1[j]);
                    assert(q[k] == ls[k]);
                    assert(from_dpkg_line(ls, k, v[j]));
                }
            } else {
                assert(from_dpkg_line(ls, ls.len() - 1, v[j]));
            }
        }
    }
}

/// What `pkg list-installed` and `dpkg -l` say is what the scan holds: each package
/// comes from a list line whose first word is its name and whose second word is its
/// version, or from a `dpkg -l` line starting `ii` whose second word is its name and
/// whose third word (if any) is its version; and every list line of at least two words
/// gives a package of the name of its first word.
pub proof fn law_pkg_scan_versions(list_out: Seq<char>, dpkg_out: Option<Seq<char>>)
    ensures
        forall|j: int| 0 <= j < pkg_scan(list_out, dpkg_out).len() ==> {
            let p = #[trigger] pkg_scan(list_out, dpkg_out)[j];
            ||| comes_from_list(after_header(lines_spec(list_out)), p)
            ||| dpkg_out matches Some(d) && comes_from_dpkg(lines_spec(d), p)
        },
        forall|k: int|
            0 <= k < after_header(lines_spec(list_out)).len() && words(#[trigger] after_header(lines_spec(list_out))[k]).len() >= 2
                ==> names_of(pkg_scan(list_out, dpkg_out)).contains(words(after_header(lines_spec(list_out))[k])[0]),
{
    let body = after_header(lines_spec(list_out));
    let listed = pkg_list_packages(body);
    lemma_list_versions(body);
    match dpkg_out {
        None => {},
        Some(d) => {
            let ds = lines_spec(d);
            lemma_dpkg_versions(listed, ds);
            let v = dpkg_packages(listed, ds);
            lemma_dpkg_keeps(listed, ds);
            assert forall|j: int| 0 <= j < v.len() implies {
                let p = #[trigger] v[j];
                ||| comes_from_list(body, p)
                ||| comes_from_dpkg(ds, p)
            } by {
                if listed.contains(v[j]) {
                    let i = listed.index_of(v[j]);
                    assert(listed[i] == v[j]);
                }
            }
            assert forall|k: int| 0 <= k < body.len() && words(#[trigger] body[k]).len() >= 2 implies names_of(v).contains(
                words(body[k])[0],
            ) by {
                let i = names_of(listed).index_of(words(body[k])[0]);
                assert(names_of(listed)[i] == listed[i].name);
                assert(v[i] == listed[i]);
                assert(names_of(v)[i] == v[i].name);
            }
        },
    }
}

/// Reading `dpkg -l` lines only adds packages after those already found.
proof fn lemma_dpkg_keeps(r: Seq<PackageModel>, ls: Seq<Seq<char>>)
    ensures
        dpkg_packages(r, ls).len() >= r.len(),
        forall|i: int| 0 <= i < r.len() ==> #[trigger] dpkg_packages(r, ls)[i] == r[i],
    decreases ls.len(),
{
    if ls.len() > 0 {
        lemma_dpkg_keeps(r, ls.drop_last());
    }
}

/// Every package found through `pkg` and `dpkg` is a `pkg` package whose path is its
/// binary.
pub proof fn law_pkg_scan_is_pkg(list_out: Seq<char>, dpkg_out: Option<Seq<char>>)
    ensures
        forall|j: int| 0 <= j < pkg_scan(list_out, dpkg_out).len() ==> {
            let p = #[trigger] pkg_scan(list_out, dpkg_out)[j];
            p.source == PackageSource::Pkg && p.install_path == pkg_bin_path(p.name)
        },
{
    lemma_list_is_pkg(after_header(lines_spec(list_out)));
    match dpkg_out {
        Some(d) => lemma_dpkg_is_pkg(pkg_list_packages(after_header(lines_spec(list_out))), lines_spec(d)),
        None => {},
    }
}

/// Whether every package of `s` is a `pkg` package whose path is its binary.
pub open spec fn all_pkg(s: Seq<PackageModel>) -> bool {
    forall|j: int| 0 <= j < s.len() ==> (#[trigger] s[j]).source == PackageSource::Pkg && s[j].install_path
        == pkg_bin_path(s[j].name)
}

/// Adding a `pkg` package to `pkg` packages keeps them all `pkg` packages.
proof fn lemma_set_add_pkg(s: Seq<PackageModel>, p: PackageModel)
    requires
        all_pkg(s),
        p.source == PackageSource::Pkg && p.install_path == pkg_bin_path(p.name),
    ensures
        all_pkg(set_add(s, p)),
{
    if !s.contains(p) {
        assert forall|j: int| 0 <= j < s.push(p).len() implies (#[trigger] s.push(p)[j]).source == PackageSource::Pkg
            && s.push(p)[j].install_path == pkg_bin_path(s.push(p)[j].name) by {
            if j < s.len() {
                assert(s.push(p)[j] == s[j]);
            }
        }
    }
}

/// The packages listed by `pkg list-installed` are `pkg` packages.
proof fn lemma_list_is_pkg(ls: Seq<Seq<char>>)
    ensures
        all_pkg(pkg_list_packages(ls)),
    decreases ls.len(),
{
    if ls.len() > 0 {
        lemma_list_is_pkg(ls.drop_last());
        let w = words(ls.last());
        if w.len() >= 2 {
            lemma_set_add_pkg(
                pkg_list_packages(ls.drop_last()),
                bare_package(w[0], Some(w[1]), PackageSource::Pkg, pkg_bin_path(w[0]), None),
            );
        }
    }
}

/// The packages added from `dpkg -l` are `pkg` packages.
proof fn lemma_dpkg_is_pkg(r: Seq<PackageModel>, ls: Seq<Seq<char>>)
    requires
        all_pkg(r),
    ensures
        all_pkg(dpkg_packages(r, ls)),
    decreases ls.len(),
{
    if ls.len() > 0 {
        lemma_dpkg_is_pkg(r, ls.drop_last());
        let r1 = dpkg_packages(r, ls.drop_last());
        let w = words(ls.last());
        if starts_with_spec(ls.last(), "ii"@) && w.len() >= 2 && !names_of(r1).contains(w[1]) {
            let version = if w.len() > 2 {
                Some(w[2])
            } else {
                None
            };
            lemma_set_add_pkg(r1, bare_package(w[1], version, PackageSource::Pkg, pkg_bin_path(w[1]), None));
        }
    }
}

} // verus!
