//! Dependency lookups and the transitive closure of dependencies.
//!
//! A package's dependencies are found under its name as resolved through the file map
//! (a file name stands for the package that owns it). Core packages are never expanded.

use vstd::prelude::*;
use crate::models::{lookup_file, lookup_file_in};
use crate::strmap::{views_of, StrMap};
use crate::text::{owned, str_eq};

verus! {

broadcast use {vstd::string::group_string_axioms, vstd::seq_lib::seq_to_set_is_finite};

/// The core system packages, which are never removed nor looked through.
pub open spec fn core_names() -> Seq<Seq<char>> {
    seq![
        "bash"@, "coreutils"@, "findutils"@, "grep"@, "sed"@, "awk"@, "tar"@, "gzip"@, "xz-utils"@,
        "termux-tools"@, "termux-exec"@, "termux-keyring"@, "termux-am"@, "termux-api"@,
        "apk-tools"@, "apt"@, "dpkg"@, "busybox"@, "ca-certificates"@, "openssl"@, "libc++"@,
        "libandroid-support"@, "libc++_shared"@, "zlib"@, "ncurses"@, "readline"@,
    ]
}

/// Whether `name` is a core package.
pub open spec fn is_core(name: Seq<char>) -> bool {
    core_names().contains(name)
}

/// The names of the core packages.
pub fn get_core_packages() -> (v: Vec<String>)
    ensures
        views_of(v@) == core_names(),
{
    let mut v: Vec<String> = Vec::new();
    v.push(owned("bash"));
    v.push(owned("coreutils"));
    v.push(owned("findutils"));
    v.push(owned("grep"));
    v.push(owned("sed"));
    v.push(owned("awk"));
    v.push(owned("tar"));
    v.push(owned("gzip"));
    v.push(owned("xz-utils"));
    v.push(owned("termux-tools"));
    v.push(owned("termux-exec"));
    v.push(owned("termux-keyring"));
    v.push(owned("termux-am"));
    v.push(owned("termux-api"));
    v.push(owned("apk-tools"));
    v.push(owned("apt"));
    v.push(owned("dpkg"));
    v.push(owned("busybox"));
    v.push(owned("ca-certificates"));
    v.push(owned("openssl"));
    v.push(owned("libc++"));
    v.push(owned("libandroid-support"));
    v.push(owned("libc++_shared"));
    v.push(owned("zlib"));
    v.push(owned("ncurses"));
    v.push(owned("readline"));
    assert(views_of(v@) =~= core_names());
    v
}

/// Whether `name` is one of the strings of `v`.
pub fn contains_name(v: &Vec<String>, name: &str) -> (b: bool)
    ensures
        b == views_of(v@).contains(name@),
{
    let mut i: usize = 0;
    while i < v.len()
        invariant
            i <= v@.len(),
            forall|j: int| 0 <= j < i ==> views_of(v@)[j] != name@,
        decreases v@.len() - i,
    {
        assert(views_of(v@)[i as int] == v@[i as int]@);
        if str_eq(v[i].as_str(), name) {
            return true;
        }
        i = i + 1;
    }
    false
}

/// Whether `name` is a core package.
pub fn is_core_package(name: &str) -> (b: bool)
    ensures
        b == is_core(name@),
{
    let core = get_core_packages();
    contains_name(&core, name)
}

/// The name a package is looked up under: the owner of the file it names, if known.
pub open spec fn resolved(fmap: Map<Seq<char>, String>, x: Seq<char>) -> Seq<char> {
    match lookup_file(fmap, x) {
        Some(n) => n,
        None => x,
    }
}

/// The recorded direct dependencies of `x` (none when nothing is recorded).
pub open spec fn deps_of(g: Map<Seq<char>, Vec<String>>, fmap: Map<Seq<char>, String>, x: Seq<char>) -> Seq<Seq<char>> {
    let n = resolved(fmap, x);
    if g.contains_key(n) {
        views_of(g[n]@)
    } else {
        Seq::empty()
    }
}

/// A chain from a root, each step from a package that is not core to one of its dependencies.
pub open spec fn is_chain(
    g: Map<Seq<char>, Vec<String>>,
    fmap: Map<Seq<char>, String>,
    roots: Seq<Seq<char>>,
    p: Seq<Seq<char>>,
) -> bool {
    &&& p.len() > 0
    &&& roots.contains(p[0])
    &&& forall|i: int|
        0 <= i < p.len() - 1 ==> !is_core(#[trigger] p[i]) && deps_of(g, fmap, p[i]).contains(p[i + 1])
}

/// Whether `x` is a root or is reached from one through dependencies of non-core packages.
pub open spec fn reachable(
    g: Map<Seq<char>, Vec<String>>,
    fmap: Map<Seq<char>, String>,
    roots: Seq<Seq<char>>,
    x: Seq<char>,
) -> bool {
    exists|p: Seq<Seq<char>>| is_chain(g, fmap, roots, p) && p.last() == x
}

/// A root is reachable.
pub proof fn lemma_root_reachable(
    g: Map<Seq<char>, Vec<String>>,
    fmap: Map<Seq<char>, String>,
    roots: Seq<Seq<char>>,
    x: Seq<char>,
)
    requires
        roots.contains(x),
    ensures
        reachable(g, fmap, roots, x),
{
    let p = seq![x];
    assert(p[0] == x);
    assert(p.last() == x);
    assert(is_chain(g, fmap, roots, p));
}

/// A dependency of a reachable non-core package is reachable.
pub proof fn lemma_step_reachable(
    g: Map<Seq<char>, Vec<String>>,
    fmap: Map<Seq<char>, String>,
    roots: Seq<Seq<char>>,
    x: Seq<char>,
    d: Seq<char>,
)
    requires
        reachable(g, fmap, roots, x),
        !is_core(x),
        deps_of(g, fmap, x).contains(d),
    ensures
        reachable(g, fmap, roots, d),
{
    let p = choose|p: Seq<Seq<char>>| is_chain(g, fmap, roots, p) && p.last() == x;
    let q = p.push(d);
    assert forall|i: int| 0 <= i < q.len() - 1 implies !is_core(#[trigger] q[i]) && deps_of(g, fmap, q[i]).contains(q[i + 1]) by {
        if i < p.len() - 1 {
            assert(q[i] == p[i] && q[i + 1] == p[i + 1]);
        } else {
            assert(q[i] == x && q[i + 1] == d);
        }
    }
    assert(q[0] == p[0]);
    assert(q.last() == d);
    assert(is_chain(g, fmap, roots, q));
}

/// A set that holds the roots and every dependency of its non-core members holds everything reachable.
pub proof fn lemma_closed_holds_reachable(
    g: Map<Seq<char>, Vec<String>>,
    fmap: Map<Seq<char>, String>,
    roots: Seq<Seq<char>>,
    s: Set<Seq<char>>,
    x: Seq<char>,
)
    requires
        forall|r: Seq<char>| roots.contains(r) ==> s.contains(r),
        forall|y: Seq<char>, d: Seq<char>|
            s.contains(y) && !is_core(y) && #[trigger] deps_of(g, fmap, y).contains(d) ==> s.contains(d),
        reachable(g, fmap, roots, x),
    ensures
        s.contains(x),
{
    let p = choose|p: Seq<Seq<char>>| is_chain(g, fmap, roots, p) && p.last() == x;
    lemma_chain_in_closed(g, fmap, roots, s, p);
}

/// Every member of a chain belongs to a closed set holding the roots.
pub proof fn lemma_chain_in_closed(
    g: Map<Seq<char>, Vec<String>>,
    fmap: Map<Seq<char>, String>,
    roots: Seq<Seq<char>>,
    s: Set<Seq<char>>,
    p: Seq<Seq<char>>,
)
    requires
        forall|r: Seq<char>| roots.contains(r) ==> s.contains(r),
        forall|y: Seq<char>, d: Seq<char>|
            s.contains(y) && !is_core(y) && #[trigger] deps_of(g, fmap, y).contains(d) ==> s.contains(d),
        is_chain(g, fmap, roots, p),
    ensures
        s.contains(p.last()),
    decreases p.len(),
{
    if p.len() > 1 {
        let q = p.drop_last();
        assert forall|i: int| 0 <= i < q.len() - 1 implies !is_core(#[trigger] q[i]) && deps_of(g, fmap, q[i]).contains(q[i + 1]) by {
            assert(q[i] == p[i] && q[i + 1] == p[i + 1]);
        }
        lemma_chain_in_closed(g, fmap, roots, s, q);
        assert(p[p.len() - 2] == q.last());
        assert(!is_core(p[p.len() - 2]) && deps_of(g, fmap, p[p.len() - 2]).contains(p[p.len() - 1]));
    }
}

/// All dependency names recorded in a list of dependency lists.
pub open spec fn flat_names(vals: Seq<Vec<String>>) -> Seq<Seq<char>>
    decreases vals.len(),
{
    if vals.len() == 0 {
        Seq::empty()
    } else {
        flat_names(vals.drop_last()) + views_of(vals.last()@)
    }
}

/// Every name of every list is among the flattened names.
pub proof fn lemma_flat_names_contains(vals: Seq<Vec<String>>, i: int, d: Seq<char>)
    requires
        0 <= i < vals.len(),
        views_of(vals[i]@).contains(d),
    ensures
        flat_names(vals).contains(d),
    decreases vals.len(),
{
    let rest = flat_names(vals.drop_last());
    let last = views_of(vals.last()@);
    assert(flat_names(vals) == rest + last);
    if i == vals.len() - 1 {
        let j = last.index_of(d);
        assert((rest + last)[rest.len() + j] == d);
    } else {
        lemma_flat_names_contains(vals.drop_last(), i, d);
        let j = rest.index_of(d);
        assert((rest + last)[j] == d);
    }
}

/// A sequence without repeats whose members all occur in `u` is no longer than `u`.
pub proof fn lemma_distinct_within(a: Seq<Seq<char>>, u: Seq<Seq<char>>)
    requires
        a.no_duplicates(),
        forall|x: Seq<char>| a.contains(x) ==> u.contains(x),
    ensures
        a.len() <= u.len(),
{
    a.unique_seq_to_set();
    u.lemma_cardinality_of_set();
    assert(a.to_set().subset_of(u.to_set()));
    vstd::set_lib::lemma_len_subset(a.to_set(), u.to_set());
}

/// A name recorded as a dependency occurs among the flattened names of the map.
pub proof fn lemma_recorded_dep_named(g: StrMap<Vec<String>>, n: Seq<char>, d: Seq<char>)
    requires
        g.wf(),
        g.map().contains_key(n),
        views_of(g.map()[n]@).contains(d),
    ensures
        flat_names(g.vals@).contains(d),
{
    g.lemma_entries();
    let j = g.key_views().index_of(n);
    assert(g.key_views()[j] == n);
    lemma_flat_names_contains(g.vals@, j, d);
}

/// How a dependency lookup came out.
#[derive(Debug)]
pub enum DepLookup {
    /// The dependencies recorded for the resolved name.
    Known(Vec<String>),
    /// Nothing is recorded for this resolved name; it has to be asked of the system.
    Unknown(String),
}

/// Looks up the direct dependencies of `package` under its resolved name.
pub fn lookup_dependencies(g: &StrMap<Vec<String>>, fmap: &StrMap<String>, package: &str) -> (r: DepLookup)
    requires
        g.wf(),
        fmap.wf(),
    ensures
        match r {
            DepLookup::Known(d) => g.map().contains_key(resolved(fmap.map(), package@)) && views_of(d@)
                == deps_of(g.map(), fmap.map(), package@),
            DepLookup::Unknown(n) => n@ == resolved(fmap.map(), package@) && !g.map().contains_key(n@),
        },
{
    let name = match lookup_file_in(fmap, package) {
        Some(n) => n,
        None => owned(package),
    };
    match g.get(name.as_str()) {
        Some(d) => DepLookup::Known(crate::models::clone_strings(d)),
        None => DepLookup::Unknown(name),
    }
}

/// The dependencies found by following dependency lists from some packages, and the
/// names whose dependencies were needed but not recorded.
#[derive(Debug)]
pub struct DependencyClosure {
    pub deps: Vec<String>,
    pub missing: Vec<String>,
}

/// Pushing onto a sequence of strings pushes its characters onto the views.
pub proof fn lemma_views_push(v: Seq<String>, e: String)
    ensures
        views_of(v.push(e)) == views_of(v).push(e@),
{
    assert(views_of(v.push(e)) =~= views_of(v).push(e@));
}

/// What a sequence holds after a push.
pub proof fn lemma_contains_push(s: Seq<Seq<char>>, x: Seq<char>)
    ensures
        forall|y: Seq<char>| #[trigger] s.push(x).contains(y) <==> (s.contains(y) || y == x),
{
    assert forall|y: Seq<char>| #[trigger] s.push(x).contains(y) <==> (s.contains(y) || y == x) by {
        if s.push(x).contains(y) {
            let j = s.push(x).index_of(y);
            if j < s.len() {
                assert(s[j] == y);
            }
        }
        if s.contains(y) {
            let j = s.index_of(y);
            assert(s.push(x)[j] == y);
        }
        if y == x {
            assert(s.push(x)[s.len() as int] == y);
        }
    }
}

/// Pushing a value not yet present keeps a sequence free of repeats.
pub proof fn lemma_no_dup_push(s: Seq<Seq<char>>, x: Seq<char>)
    requires
        s.no_duplicates(),
        !s.contains(x),
    ensures
        s.push(x).no_duplicates(),
{
    let t = s.push(x);
    assert forall|a: int, b: int| 0 <= a < t.len() && 0 <= b < t.len() && a != b implies t[a] != t[b] by {
        if a == s.len() {
            assert(t[b] == s[b]);
            assert(s.contains(s[b]));
        } else if b == s.len() {
            assert(t[a] == s[a]);
            assert(s.contains(s[a]));
        } else {
            assert(t[a] == s[a] && t[b] == s[b]);
        }
    }
}

/// The state of a walk through the dependencies.
struct Walk {
    stack: Vec<String>,
    processed: Vec<String>,
    all: Vec<String>,
    missing: Vec<String>,
}

/// What the map of recorded dependencies looks like to the walk.
spec fn graph_ok(g: StrMap<Vec<String>>, gm: Map<Seq<char>, Vec<String>>, u: Seq<Seq<char>>) -> bool {
    &&& g.wf()
    &&& gm == g.map()
    &&& u == flat_names(g.vals@)
    &&& forall|j: int| 0 <= j < g.keys@.len() ==> #[trigger] gm.contains_key(g.key_views()[j]) && gm[g.key_views()[j]] == g.vals@[j]
    &&& forall|k: Seq<char>| #[trigger] gm.contains_key(k) ==> g.key_views().contains(k)
}

/// A name recorded as a dependency occurs among the flattened names.
proof fn lemma_dep_in_flat(g: StrMap<Vec<String>>, gm: Map<Seq<char>, Vec<String>>, u: Seq<Seq<char>>, n: Seq<char>, d: Seq<char>)
    requires
        graph_ok(g, gm, u),
        gm.contains_key(n),
        views_of(gm[n]@).contains(d),
    ensures
        u.contains(d),
{
    assert(g.key_views().contains(n));
    let j = g.key_views().index_of(n);
    assert(g.key_views()[j] == n);
    lemma_flat_names_contains(g.vals@, j, d);
}

/// Whether `m` has no recorded dependencies and is the resolved name of a reachable
/// package that is not core, so that its dependencies are needed.
pub open spec fn needed_unknown(
    gm: Map<Seq<char>, Vec<String>>,
    fm: Map<Seq<char>, String>,
    rv: Seq<Seq<char>>,
    m: Seq<char>,
) -> bool {
    &&& !gm.contains_key(m)
    &&& exists|y: Seq<char>| #[trigger] reachable(gm, fm, rv, y) && !is_core(y) && resolved(fm, y) == m
}

/// The invariant of a walk from `rv`.
spec fn walk_ok(
    w: Walk,
    gm: Map<Seq<char>, Vec<String>>,
    fm: Map<Seq<char>, String>,
    rv: Seq<Seq<char>>,
    u: Seq<Seq<char>>,
) -> bool {
    let st = views_of(w.stack@);
    let pr = views_of(w.processed@);
    let al = views_of(w.all@);
    let mi = views_of(w.missing@);
    &&& forall|x: Seq<char>| #[trigger] pr.contains(x) ==> reachable(gm, fm, rv, x)
    &&& forall|x: Seq<char>| #[trigger] al.contains(x) ==> reachable(gm, fm, rv, x)
    &&& forall|x: Seq<char>| #[trigger] st.contains(x) ==> reachable(gm, fm, rv, x)
    &&& forall|x: Seq<char>| #[trigger] al.contains(x) ==> pr.contains(x) || st.contains(x)
    &&& forall|x: Seq<char>| #[trigger] rv.contains(x) ==> pr.contains(x) || st.contains(x)
    &&& forall|x: Seq<char>| #[trigger] st.contains(x) ==> rv.contains(x) || al.contains(x)
    &&& forall|x: Seq<char>| #[trigger] pr.contains(x) ==> rv.contains(x) || al.contains(x)
    &&& forall|y: Seq<char>, d: Seq<char>|
        pr.contains(y) && !is_core(y) && #[trigger] deps_of(gm, fm, y).contains(d) ==> al.contains(d) || pr.contains(d)
    &&& al.no_duplicates()
    &&& forall|x: Seq<char>| #[trigger] al.contains(x) ==> u.contains(x)
    &&& forall|m: Seq<char>| #[trigger] mi.contains(m) ==> needed_unknown(gm, fm, rv, m)
    &&& forall|y: Seq<char>|
        pr.contains(y) && !is_core(y) && !gm.contains_key(resolved(fm, y)) ==> #[trigger] mi.contains(resolved(fm, y))
}

/// Adds each dependency of `pkg` that is neither handled nor found yet, to the found
/// dependencies and to the stack.
#[verifier::rlimit(60)]
fn expand(
    w: &mut Walk,
    deps: &Vec<String>,
    Ghost(pkg): Ghost<Seq<char>>,
    Ghost(gm): Ghost<Map<Seq<char>, Vec<String>>>,
    Ghost(fm): Ghost<Map<Seq<char>, String>>,
    Ghost(rv): Ghost<Seq<Seq<char>>>,
    Ghost(u): Ghost<Seq<Seq<char>>>,
    Ghost(g): Ghost<StrMap<Vec<String>>>,
)
    requires
        graph_ok(g, gm, u),
        views_of(deps@) == deps_of(gm, fm, pkg),
        !is_core(pkg),
        reachable(gm, fm, rv, pkg),
        views_of(old(w).processed@).contains(pkg),
        views_of(old(w).all@).no_duplicates(),
        forall|x: Seq<char>| #[trigger] views_of(old(w).all@).contains(x) ==> reachable(gm, fm, rv, x),
        forall|x: Seq<char>| #[trigger] views_of(old(w).stack@).contains(x) ==> reachable(gm, fm, rv, x),
        forall|x: Seq<char>| #[trigger] views_of(old(w).all@).contains(x) ==> u.contains(x),
    ensures
        final(w).processed@ == old(w).processed@,
        final(w).missing@ == old(w).missing@,
        forall|d: Seq<char>| #[trigger] deps_of(gm, fm, pkg).contains(d) ==> views_of(final(w).all@).contains(d) || views_of(final(w).processed@).contains(d),
        forall|x: Seq<char>| #[trigger] views_of(final(w).all@).contains(x) ==> reachable(gm, fm, rv, x),
        forall|x: Seq<char>| #[trigger] views_of(final(w).stack@).contains(x) ==> reachable(gm, fm, rv, x),
        forall|x: Seq<char>| #[trigger] views_of(final(w).all@).contains(x) <==> (views_of(old(w).all@).contains(x) || (views_of(final(w).all@).contains(x) && views_of(final(w).stack@).contains(x) && !views_of(old(w).all@).contains(x))),
        forall|x: Seq<char>| #[trigger] views_of(final(w).stack@).contains(x) <==> (views_of(old(w).stack@).contains(x) || (views_of(final(w).all@).contains(x) && !views_of(old(w).all@).contains(x))),
        forall|x: Seq<char>| #[trigger] views_of(old(w).all@).contains(x) ==> views_of(final(w).all@).contains(x),
        views_of(final(w).all@).no_duplicates(),
        forall|x: Seq<char>| #[trigger] views_of(final(w).all@).contains(x) ==> u.contains(x),
        final(w).all@.len() >= old(w).all@.len(),
        final(w).all@.len() == old(w).all@.len() ==> final(w).stack@.len() == old(w).stack@.len(),
{
    let ghost a0 = views_of(w.all@);
    let ghost s0 = views_of(w.stack@);
    let mut k: usize = 0;
    while k < deps.len()
        invariant
            graph_ok(g, gm, u),
            k <= deps@.len(),
            views_of(deps@) == deps_of(gm, fm, pkg),
            !is_core(pkg),
            reachable(gm, fm, rv, pkg),
            w.processed@ == old(w).processed@,
            w.missing@ == old(w).missing@,
            a0 == views_of(old(w).all@),
            s0 == views_of(old(w).stack@),
            forall|j: int| 0 <= j < k ==> views_of(w.all@).contains(#[trigger] views_of(deps@)[j]) || views_of(w.processed@).contains(views_of(deps@)[j]),
            forall|x: Seq<char>| #[trigger] views_of(w.all@).contains(x) ==> reachable(gm, fm, rv, x),
            forall|x: Seq<char>| #[trigger] views_of(w.stack@).contains(x) ==> reachable(gm, fm, rv, x),
            forall|x: Seq<char>| #[trigger] views_of(w.all@).contains(x) <==> (a0.contains(x) || (views_of(w.all@).contains(x) && views_of(w.stack@).contains(x) && !a0.contains(x))),
            forall|x: Seq<char>| #[trigger] views_of(w.stack@).contains(x) <==> (s0.contains(x) || (views_of(w.all@).contains(x) && !a0.contains(x))),
            forall|x: Seq<char>| #[trigger] a0.contains(x) ==> views_of(w.all@).contains(x),
            views_of(w.all@).no_duplicates(),
            forall|x: Seq<char>| #[trigger] views_of(w.all@).contains(x) ==> u.contains(x),
            w.all@.len() >= old(w).all@.len(),
            w.all@.len() == old(w).all@.len() ==> w.stack@.len() == old(w).stack@.len(),
        decreases deps@.len() - k,
    {
        let dep = &deps[k];
        assert(views_of(deps@)[k as int] == dep@);
        if !contains_name(&w.processed, dep.as_str()) && !contains_name(&w.all, dep.as_str()) {
            let ghost a1 = views_of(w.all@);
            let ghost s1 = views_of(w.stack@);
            w.all.push(dep.clone());
            w.stack.push(dep.clone());
            proof {
                lemma_views_push(old(w).all@, *dep);
                assert(views_of(w.all@) == a1.push(dep@)) by {
                    assert(views_of(w.all@) =~= a1.push(dep@));
                }
                assert(views_of(w.stack@) == s1.push(dep@)) by {
                    assert(views_of(w.stack@) =~= s1.push(dep@));
                }
                lemma_contains_push(a1, dep@);
                lemma_contains_push(s1, dep@);
                lemma_no_dup_push(a1, dep@);
                lemma_step_reachable(gm, fm, rv, pkg, dep@);
                assert(deps_of(gm, fm, pkg).contains(dep@));
                lemma_dep_in_flat(g, gm, u, resolved(fm, pkg), dep@);
                assert(!a0.contains(dep@));
            }
        }
        k = k + 1;
    }
    proof {
        assert forall|d: Seq<char>| #[trigger] deps_of(gm, fm, pkg).contains(d) implies views_of(w.all@).contains(d) || views_of(w.processed@).contains(d) by {
            let j = views_of(deps@).index_of(d);
            assert(views_of(deps@)[j] == d);
        }
    }
}

/// The invariant of a walk, except that the dependencies of `pkg` may not be handled yet.
spec fn walk_ok_but(
    w: Walk,
    gm: Map<Seq<char>, Vec<String>>,
    fm: Map<Seq<char>, String>,
    rv: Seq<Seq<char>>,
    u: Seq<Seq<char>>,
    pkg: Seq<char>,
) -> bool {
    let st = views_of(w.stack@);
    let pr = views_of(w.processed@);
    let al = views_of(w.all@);
    let mi = views_of(w.missing@);
    &&& forall|x: Seq<char>| #[trigger] pr.contains(x) ==> reachable(gm, fm, rv, x)
    &&& forall|x: Seq<char>| #[trigger] al.contains(x) ==> reachable(gm, fm, rv, x)
    &&& forall|x: Seq<char>| #[trigger] st.contains(x) ==> reachable(gm, fm, rv, x)
    &&& forall|x: Seq<char>| #[trigger] al.contains(x) ==> pr.contains(x) || st.contains(x)
    &&& forall|x: Seq<char>| #[trigger] rv.contains(x) ==> pr.contains(x) || st.contains(x)
    &&& forall|x: Seq<char>| #[trigger] st.contains(x) ==> rv.contains(x) || al.contains(x)
    &&& forall|x: Seq<char>| #[trigger] pr.contains(x) ==> rv.contains(x) || al.contains(x)
    &&& forall|y: Seq<char>, d: Seq<char>|
        pr.contains(y) && !is_core(y) && y != pkg && #[trigger] deps_of(gm, fm, y).contains(d) ==> al.contains(d)
            || pr.contains(d)
    &&& al.no_duplicates()
    &&& forall|x: Seq<char>| #[trigger] al.contains(x) ==> u.contains(x)
    &&& forall|m: Seq<char>| #[trigger] mi.contains(m) ==> needed_unknown(gm, fm, rv, m)
    &&& forall|y: Seq<char>|
        pr.contains(y) && !is_core(y) && !gm.contains_key(resolved(fm, y)) ==> #[trigger] mi.contains(resolved(fm, y))
    &&& pr.contains(pkg)
    &&& !is_core(pkg)
    &&& reachable(gm, fm, rv, pkg)
}

/// Pops the top of the stack; if it still needs handling, marks it handled, notes it when
/// its dependencies are unrecorded, and gives it back with its recorded dependencies.
#[verifier::rlimit(60)]
fn take_next(
    w: &mut Walk,
    g: &StrMap<Vec<String>>,
    fmap: &StrMap<String>,
    Ghost(rv): Ghost<Seq<Seq<char>>>,
    Ghost(u): Ghost<Seq<Seq<char>>>,
) -> (r: Option<(String, Vec<String>)>)
    requires
        graph_ok(*g, g.map(), u),
        fmap.wf(),
        walk_ok(*old(w), g.map(), fmap.map(), rv, u),
        old(w).stack@.len() > 0,
    ensures
        final(w).all@ == old(w).all@,
        final(w).stack@.len() < old(w).stack@.len(),
        r is None ==> walk_ok(*final(w), g.map(), fmap.map(), rv, u),
        r matches Some((p, d)) ==> walk_ok_but(*final(w), g.map(), fmap.map(), rv, u, p@) && views_of(d@)
            == deps_of(g.map(), fmap.map(), p@),
{
    let ghost gm = g.map();
    let ghost fm = fmap.map();
    let ghost st0 = views_of(w.stack@);
    let ghost p0 = views_of(w.processed@);
    let ghost m0 = views_of(w.missing@);
    let pkg = w.stack.pop().unwrap();
    proof {
        lemma_views_push(w.stack@, pkg);
        assert(old(w).stack@ =~= w.stack@.push(pkg));
        assert(st0 == views_of(w.stack@).push(pkg@));
        lemma_contains_push(views_of(w.stack@), pkg@);
        assert(st0.contains(pkg@)) by {
            assert(st0[st0.len() - 1] == pkg@);
        }
    }
    if contains_name(&w.processed, pkg.as_str()) {
        proof {
            assert forall|x: Seq<char>| #[trigger] st0.contains(x) implies views_of(w.stack@).contains(x)
                || p0.contains(x) by {}
            assert forall|x: Seq<char>| #[trigger] views_of(w.stack@).contains(x) implies st0.contains(x) by {}
            assert(walk_ok(*w, gm, fm, rv, u));
        }
        return None;
    }
    w.processed.push(pkg.clone());
    proof {
        lemma_views_push(old(w).processed@, pkg);
        lemma_contains_push(p0, pkg@);
        assert(views_of(w.processed@) == p0.push(pkg@));
        assert forall|x: Seq<char>| #[trigger] st0.contains(x) implies views_of(w.stack@).contains(x)
            || views_of(w.processed@).contains(x) by {}
        assert forall|x: Seq<char>| #[trigger] views_of(w.stack@).contains(x) implies st0.contains(x) by {}
    }
    if is_core_package(pkg.as_str()) {
        proof {
            assert(walk_ok(*w, gm, fm, rv, u));
        }
        return None;
    }
    let deps: Vec<String> = match lookup_dependencies(g, fmap, pkg.as_str()) {
        DepLookup::Known(d) => d,
        DepLookup::Unknown(n) => {
            w.missing.push(n);
            proof {
                lemma_views_push(old(w).missing@, n);
                lemma_contains_push(m0, n@);
                assert(views_of(w.missing@) == m0.push(n@));
                assert(st0.contains(pkg@));
                assert(reachable(gm, fm, rv, pkg@));
                assert(needed_unknown(gm, fm, rv, n@));
            }
            Vec::new()
        },
    };
    proof {
        assert(views_of(deps@) =~= deps_of(gm, fm, pkg@));
        assert(walk_ok_but(*w, gm, fm, rv, u, pkg@));
    }
    Some((pkg, deps))
}

/// Once the dependencies of `pkg` are handled, the walk's invariant holds again.
proof fn lemma_after_expand(
    w0: Walk,
    w1: Walk,
    gm: Map<Seq<char>, Vec<String>>,
    fm: Map<Seq<char>, String>,
    rv: Seq<Seq<char>>,
    u: Seq<Seq<char>>,
    pkg: Seq<char>,
)
    requires
        walk_ok_but(w0, gm, fm, rv, u, pkg),
        w1.processed@ == w0.processed@,
        w1.missing@ == w0.missing@,
        forall|d: Seq<char>| #[trigger] deps_of(gm, fm, pkg).contains(d) ==> views_of(w1.all@).contains(d) || views_of(w1.processed@).contains(d),
        forall|x: Seq<char>| #[trigger] views_of(w1.all@).contains(x) ==> reachable(gm, fm, rv, x),
        forall|x: Seq<char>| #[trigger] views_of(w1.stack@).contains(x) ==> reachable(gm, fm, rv, x),
        forall|x: Seq<char>| #[trigger] views_of(w1.all@).contains(x) <==> (views_of(w0.all@).contains(x) || (views_of(w1.all@).contains(x) && views_of(w1.stack@).contains(x) && !views_of(w0.all@).contains(x))),
        forall|x: Seq<char>| #[trigger] views_of(w1.stack@).contains(x) <==> (views_of(w0.stack@).contains(x) || (views_of(w1.all@).contains(x) && !views_of(w0.all@).contains(x))),
        forall|x: Seq<char>| #[trigger] views_of(w0.all@).contains(x) ==> views_of(w1.all@).contains(x),
        views_of(w1.all@).no_duplicates(),
        forall|x: Seq<char>| #[trigger] views_of(w1.all@).contains(x) ==> u.contains(x),
    ensures
        walk_ok(w1, gm, fm, rv, u),
{
}

/// Handles the package on top of the stack.
fn walk_step(
    w: &mut Walk,
    g: &StrMap<Vec<String>>,
    fmap: &StrMap<String>,
    Ghost(rv): Ghost<Seq<Seq<char>>>,
    Ghost(u): Ghost<Seq<Seq<char>>>,
)
    requires
        graph_ok(*g, g.map(), u),
        fmap.wf(),
        walk_ok(*old(w), g.map(), fmap.map(), rv, u),
        old(w).stack@.len() > 0,
    ensures
        walk_ok(*final(w), g.map(), fmap.map(), rv, u),
        final(w).all@.len() > old(w).all@.len() || (final(w).all@.len() == old(w).all@.len()
            && final(w).stack@.len() < old(w).stack@.len()),
{
    match take_next(w, g, fmap, Ghost(rv), Ghost(u)) {
        None => {},
        Some((pkg, deps)) => {
            let ghost w0 = *w;
            let ghost s_len = w.stack@.len();
            expand(w, &deps, Ghost(pkg@), Ghost(g.map()), Ghost(fmap.map()), Ghost(rv), Ghost(u), Ghost(*g));
            proof {
                lemma_after_expand(w0, *w, g.map(), fmap.map(), rv, u, pkg@);
            }
        },
    }
}

/// Follows dependencies from `roots` (taken last first), skipping core packages, and
/// collects every dependency met that was not already handled. Unrecorded names count
/// as having no dependencies and are reported in `missing`.
pub fn dependency_closure(g: &StrMap<Vec<String>>, fmap: &StrMap<String>, roots: &[String]) -> (r: DependencyClosure)
    requires
        g.wf(),
        fmap.wf(),
    ensures
        views_of(r.deps@).no_duplicates(),
        forall|x: Seq<char>| #[trigger] views_of(r.deps@).contains(x) ==> reachable(
            g.map(),
            fmap.map(),
            views_of(roots@),
            x,
        ),
        forall|x: Seq<char>|
            reachable(g.map(), fmap.map(), views_of(roots@), x) && !views_of(roots@).contains(x)
                ==> #[trigger] views_of(r.deps@).contains(x),
        forall|m: Seq<char>| #[trigger] views_of(r.missing@).contains(m) ==> needed_unknown(
            g.map(),
            fmap.map(),
            views_of(roots@),
            m,
        ),
        forall|y: Seq<char>|
            reachable(g.map(), fmap.map(), views_of(roots@), y) && !is_core(y) && !g.map().contains_key(
                resolved(fmap.map(), y),
            ) ==> #[trigger] views_of(r.missing@).contains(resolved(fmap.map(), y)),
{
    let ghost gm = g.map();
    let ghost fm = fmap.map();
    let ghost rv = views_of(roots@);
    let ghost u = flat_names(g.vals@);
    let mut stack: Vec<String> = Vec::new();
    let mut i: usize = 0;
    while i < roots.len()
        invariant
            i <= roots@.len(),
            views_of(stack@) == rv.take(i as int),
            rv == views_of(roots@),
        decreases roots@.len() - i,
    {
        let ghost before = views_of(stack@);
        stack.push(roots[i].clone());
        assert(rv[i as int] == roots@[i as int]@);
        assert(views_of(stack@) =~= before.push(roots@[i as int]@));
        assert(rv.take(i + 1) =~= rv.take(i as int).push(rv[i as int]));
        i = i + 1;
    }
    assert(rv.take(roots@.len() as int) =~= rv);
    let mut w = Walk { stack, processed: Vec::new(), all: Vec::new(), missing: Vec::new() };
    proof {
        g.lemma_entries();
        assert forall|x: Seq<char>| #[trigger] views_of(w.stack@).contains(x) implies reachable(gm, fm, rv, x) by {
            lemma_root_reachable(gm, fm, rv, x);
        }
        assert(views_of(w.processed@) =~= Seq::<Seq<char>>::empty());
        assert(views_of(w.all@) =~= Seq::<Seq<char>>::empty());
        assert(views_of(w.missing@) =~= Seq::<Seq<char>>::empty());
        assert forall|k: Seq<char>| #[trigger] gm.contains_key(k) implies g.key_views().contains(k) by {}
        assert(graph_ok(*g, gm, u));
        assert(walk_ok(w, gm, fm, rv, u));
    }
    while w.stack.len() > 0
        invariant
            graph_ok(*g, gm, u),
            fmap.wf(),
            fm == fmap.map(),
            walk_ok(w, gm, fm, rv, u),
        decreases u.len() - w.all@.len(), w.stack@.len(),
    {
        proof {
            lemma_distinct_within(views_of(w.all@), u);
        }
        walk_step(&mut w, g, fmap, Ghost(rv), Ghost(u));
        proof {
            lemma_distinct_within(views_of(w.all@), u);
        }
    }
    proof {
        let pr = views_of(w.processed@);
        let s = pr.to_set();
        assert forall|y: Seq<char>, d: Seq<char>| s.contains(y) && !is_core(y) && #[trigger] deps_of(gm, fm, y).contains(d) implies s.contains(d) by {
            assert(pr.contains(y));
        }
        assert forall|r0: Seq<char>| rv.contains(r0) implies s.contains(r0) by {}
        assert forall|x: Seq<char>| reachable(gm, fm, rv, x) && !rv.contains(x) implies #[trigger] views_of(w.all@).contains(x) by {
            lemma_closed_holds_reachable(gm, fm, rv, s, x);
        }
        assert forall|y: Seq<char>| reachable(gm, fm, rv, y) && !is_core(y) && !gm.contains_key(resolved(fm, y)) implies #[trigger] views_of(w.missing@).contains(resolved(fm, y)) by {
            lemma_closed_holds_reachable(gm, fm, rv, s, y);
        }
    }
    DependencyClosure { deps: w.all, missing: w.missing }
}

} // verus!
