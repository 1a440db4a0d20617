//! Walks through the recorded dependencies from one package, depth first: its
//! dependency tree, the dependency cycles met on the way, and a dependency chain to
//! another package.
//!
//! Each walk stops at the first package whose dependencies are not recorded and names
//! it, so that the caller can ask the system for them, record them and walk again.

use vstd::prelude::*;
use crate::analyzer::{Analyzer, position_named};
use crate::cache::models_of;
use crate::graph::{contains_name, deps_of, flat_names, lemma_distinct_within, lemma_recorded_dep_named, resolved};
use crate::models::{DependencyGraph, DependencyNode, Package, PackageModel, PackageSource, clone_opt_string, opt_view};
use crate::strmap::views_of;
use crate::text::{decimal, owned, push_repeat, push_str, push_u64, repeat_char, str_eq};
use crate::tracker::{Tracker, dependents_among, first_named, unrecorded_among};
use crate::graph::DepLookup;
use crate::show::deps_view;

verus! {

broadcast use vstd::string::group_string_axioms;

/// A node of a dependency tree, as mathematical values.
pub struct NodeModel {
    pub name: Seq<char>,
    pub depth: nat,
    pub parent: Seq<char>,
    pub version: Option<Seq<char>>,
    pub source: PackageSource,
}

/// The model of a dependency tree node.
pub open spec fn node_view(n: DependencyNode) -> NodeModel {
    NodeModel { name: n.name@, depth: n.depth as nat, parent: n.parent@, version: opt_view(n.version), source: n.source }
}

/// The node for `dep`, a dependency of `parent`, at `depth`: with the version and source
/// of the first installed package of that name (none and unknown when not installed).
pub open spec fn dep_node(ps: Seq<PackageModel>, dep: Seq<char>, depth: nat, parent: Seq<char>) -> NodeModel {
    match first_named(ps, dep) {
        Some(p) => NodeModel { name: dep, depth, parent, version: p.version, source: p.source },
        None => NodeModel { name: dep, depth, parent, version: None, source: PackageSource::Unknown },
    }
}

/// What a tree walk has done so far: the packages visited, the nodes found, the largest
/// depth visited, and the name whose dependencies are needed, if the walk stopped.
pub struct TreeState {
    pub visited: Seq<Seq<char>>,
    pub nodes: Seq<NodeModel>,
    pub max_depth: nat,
    pub need: Option<Seq<char>>,
}

/// Visits `pkg` at `depth` (at most 10): unless already visited, each of its
/// dependencies becomes a node one level deeper, and is visited in turn while the depth
/// stays within 10.
pub open spec fn tree_node(
    g: Map<Seq<char>, Vec<String>>,
    fm: Map<Seq<char>, String>,
    ps: Seq<PackageModel>,
    pkg: Seq<char>,
    depth: nat,
    st: TreeState,
) -> TreeState
    decreases 11 - depth, 1int, 0int,
{
    if depth > 10 || st.need is Some || st.visited.contains(pkg) {
        st
    } else {
        let st1 = TreeState {
            visited: st.visited.push(pkg),
            max_depth: if depth > st.max_depth {
                depth
            } else {
                st.max_depth
            },
            ..st
        };
        let n = resolved(fm, pkg);
        if !g.contains_key(n) {
            TreeState { need: Some(n), ..st1 }
        } else {
            tree_list(g, fm, ps, pkg, views_of(g[n]@), 0, depth, st1)
        }
    }
}

/// Handles the dependencies `deps[i..]` of `parent`, which is at `depth`.
pub open spec fn tree_list(
    g: Map<Seq<char>, Vec<String>>,
    fm: Map<Seq<char>, String>,
    ps: Seq<PackageModel>,
    parent: Seq<char>,
    deps: Seq<Seq<char>>,
    i: int,
    depth: nat,
    st: TreeState,
) -> TreeState
    decreases 11 - depth, 0int, deps.len() - i,
{
    if i < 0 || i >= deps.len() || st.need is Some || depth > 10 {
        st
    } else {
        let dep = deps[i];
        let st1 = TreeState { nodes: st.nodes.push(dep_node(ps, dep, depth + 1, parent)), ..st };
        let st2 = if depth < 10 {
            tree_node(g, fm, ps, dep, depth + 1, st1)
        } else {
            st1
        };
        tree_list(g, fm, ps, parent, deps, i + 1, depth, st2)
    }
}

/// A tree walk that has not started.
pub open spec fn tree_start() -> TreeState {
    TreeState { visited: Seq::empty(), nodes: Seq::empty(), max_depth: 0, need: None }
}

/// What a cycle search has done so far: the packages visited, the path from the start
/// to the current package, the cycles found, and the name whose dependencies are
/// needed, if the search stopped.
pub struct CycleState {
    pub visited: Seq<Seq<char>>,
    pub path: Seq<Seq<char>>,
    pub cycles: Seq<Seq<Seq<char>>>,
    pub need: Option<Seq<char>>,
}

/// The position of the first `x` in `s` (`s.len()` when there is none).
pub open spec fn first_pos(s: Seq<Seq<char>>, x: Seq<char>) -> int
    decreases s.len(),
{
    if s.len() == 0 || s[0] == x {
        0
    } else {
        1 + first_pos(s.drop_first(), x)
    }
}

/// Visits `pkg` in the search for cycles: a package already on the path closes the cycle
/// from its first place on the path (recorded unless already found); otherwise, unless
/// already visited, its dependencies are searched with it on the path. `budget` bounds
/// the number of packages still to visit.
pub open spec fn cycle_node(
    g: Map<Seq<char>, Vec<String>>,
    fm: Map<Seq<char>, String>,
    pkg: Seq<char>,
    st: CycleState,
    budget: nat,
) -> CycleState
    decreases budget, 0int, 0int,
{
    if st.need is Some {
        st
    } else if st.path.contains(pkg) {
        let cycle = st.path.subrange(first_pos(st.path, pkg), st.path.len() as int);
        if st.cycles.contains(cycle) {
            st
        } else {
            CycleState { cycles: st.cycles.push(cycle), ..st }
        }
    } else if st.visited.contains(pkg) || budget == 0 {
        st
    } else {
        let st1 = CycleState { visited: st.visited.push(pkg), path: st.path.push(pkg), ..st };
        let n = resolved(fm, pkg);
        if !g.contains_key(n) {
            CycleState { need: Some(n), ..st1 }
        } else {
            let st2 = cycle_list(g, fm, views_of(g[n]@), 0, st1, (budget - 1) as nat);
            if st2.need is Some {
                st2
            } else {
                CycleState { path: st2.path.drop_last(), ..st2 }
            }
        }
    }
}

/// Searches the dependencies `deps[i..]` for cycles.
pub open spec fn cycle_list(
    g: Map<Seq<char>, Vec<String>>,
    fm: Map<Seq<char>, String>,
    deps: Seq<Seq<char>>,
    i: int,
    st: CycleState,
    budget: nat,
) -> CycleState
    decreases budget, 1int, deps.len() - i,
{
    if i < 0 || i >= deps.len() || st.need is Some {
        st
    } else {
        cycle_list(g, fm, deps, i + 1, cycle_node(g, fm, deps[i], st, budget), budget)
    }
}

/// A cycle search that has not started.
pub open spec fn cycle_start() -> CycleState {
    CycleState { visited: Seq::empty(), path: Seq::empty(), cycles: Seq::empty(), need: None }
}

/// The names a walk from `root` can meet: `root` and every recorded dependency.
pub open spec fn walk_names(t: Tracker, root: Seq<char>) -> Seq<Seq<char>> {
    flat_names(t.dependency_cache.direct_deps.vals@).push(root)
}

/// The exec state of a tree walk.
struct TreeWalk {
    visited: Vec<String>,
    nodes: Vec<DependencyNode>,
    max_depth: usize,
    need: Option<String>,
}

/// The model of a tree walk.
spec fn tree_view(w: TreeWalk) -> TreeState {
    TreeState {
        visited: views_of(w.visited@),
        nodes: w.nodes@.map_values(|n: DependencyNode| node_view(n)),
        max_depth: w.max_depth as nat,
        need: opt_view(w.need),
    }
}

/// The exec state of a cycle search.
struct CycleWalk {
    visited: Vec<String>,
    path: Vec<String>,
    cycles: Vec<Vec<String>>,
    need: Option<String>,
}

/// The cycles found, as sequences of names.
pub open spec fn cycles_view(c: Seq<Vec<String>>) -> Seq<Seq<Seq<char>>> {
    c.map_values(|v: Vec<String>| views_of(v@))
}

/// The model of a cycle search.
spec fn cycle_view(w: CycleWalk) -> CycleState {
    CycleState {
        visited: views_of(w.visited@),
        path: views_of(w.path@),
        cycles: cycles_view(w.cycles@),
        need: opt_view(w.need),
    }
}

/// The invariant of a cycle search within the names `u`, with `budget` left.
spec fn cycle_ok(w: CycleWalk, u: Seq<Seq<char>>, budget: nat) -> bool {
    &&& views_of(w.visited@).no_duplicates()
    &&& forall|x: Seq<char>| #[trigger] views_of(w.visited@).contains(x) ==> u.contains(x)
    &&& u.len() <= budget + views_of(w.visited@).len()
}

/// Visits `pkg` at `depth` in the tree walk.
fn walk_tree(t: &Tracker, ps: &Vec<Package>, pkg: &str, depth: usize, w: &mut TreeWalk)
    requires
        t.wf(),
        depth <= 10,
        old(w).max_depth <= 10,
    ensures
        tree_view(*final(w)) == tree_node(t.graph(), t.files(), models_of(ps@), pkg@, depth as nat, tree_view(*old(w))),
        final(w).max_depth <= 10,
    decreases 11 - depth,
{
    if w.need.is_some() || contains_name(&w.visited, pkg) {
        return;
    }
    let ghost st0 = tree_view(*w);
    w.visited.push(owned(pkg));
    if depth > w.max_depth {
        w.max_depth = depth;
    }
    let ghost st1 = tree_view(*w);
    proof {
        assert(st1.visited =~= st0.visited.push(pkg@));
        assert(st1.nodes =~= st0.nodes);
    }
    match t.get_dependencies(pkg) {
        DepLookup::Unknown(n) => {
            w.need = Some(n);
            assert(tree_view(*w) =~= TreeState { need: Some(resolved(t.files(), pkg@)), ..st1 });
        },
        DepLookup::Known(deps) => {
            let ghost dv = views_of(deps@);
            let ghost ps_m = models_of(ps@);
            let mut i: usize = 0;
            while i < deps.len() && w.need.is_none()
                invariant
                    t.wf(),
                    depth <= 10,
                    w.max_depth <= 10,
                    i <= deps@.len(),
                    dv == views_of(deps@),
                    ps_m == models_of(ps@),
                    tree_list(t.graph(), t.files(), ps_m, pkg@, dv, 0, depth as nat, st1) == tree_list(
                        t.graph(),
                        t.files(),
                        ps_m,
                        pkg@,
                        dv,
                        i as int,
                        depth as nat,
                        tree_view(*w),
                    ),
                decreases deps@.len() - i,
            {
                let dep = &deps[i];
                assert(dv[i as int] == dep@);
                let ghost sa = tree_view(*w);
                let (version, source) = match position_named(ps, dep.as_str()) {
                    Some(k) => (clone_opt_string(&ps[k].version), ps[k].source),
                    None => (None, PackageSource::Unknown),
                };
                let node = DependencyNode { name: dep.clone(), depth: depth + 1, parent: owned(pkg), version, source };
                assert(node_view(node) == dep_node(ps_m, dep@, (depth + 1) as nat, pkg@));
                w.nodes.push(node);
                assert(w.nodes@.map_values(|n: DependencyNode| node_view(n)) =~= sa.nodes.push(node_view(node)));
                assert(tree_view(*w) == TreeState {
                    nodes: sa.nodes.push(dep_node(ps_m, dep@, (depth + 1) as nat, pkg@)),
                    ..sa
                });
                if depth < 10 {
                    walk_tree(t, ps, dep.as_str(), depth + 1, w);
                }
                i = i + 1;
            }
        },
    }
}

/// Whether two lists hold the same names in the same order.
pub fn same_names(a: &Vec<String>, b: &Vec<String>) -> (r: bool)
    ensures
        r == (views_of(a@) == views_of(b@)),
{
    if a.len() != b.len() {
        assert(views_of(a@).len() != views_of(b@).len());
        return false;
    }
    let mut i: usize = 0;
    while i < a.len()
        invariant
            i <= a@.len(),
            a@.len() == b@.len(),
            forall|j: int| 0 <= j < i ==> a@[j]@ == b@[j]@,
        decreases a@.len() - i,
    {
        if !str_eq(a[i].as_str(), b[i].as_str()) {
            assert(views_of(a@)[i as int] != views_of(b@)[i as int]);
            return false;
        }
        i = i + 1;
    }
    assert(views_of(a@) =~= views_of(b@));
    true
}

/// Whether `c` is among the cycles found.
fn has_cycle(cycles: &Vec<Vec<String>>, c: &Vec<String>) -> (r: bool)
    ensures
        r == cycles_view(cycles@).contains(views_of(c@)),
{
    let mut i: usize = 0;
    while i < cycles.len()
        invariant
            i <= cycles@.len(),
            forall|j: int| 0 <= j < i ==> views_of(cycles@[j]@) != views_of(c@),
        decreases cycles@.len() - i,
    {
        if same_names(&cycles[i], c) {
            assert(cycles_view(cycles@)[i as int] == views_of(c@));
            return true;
        }
        i = i + 1;
    }
    proof {
        if cycles_view(cycles@).contains(views_of(c@)) {
            let q = cycles_view(cycles@).index_of(views_of(c@));
            assert(cycles_view(cycles@)[q] == views_of(cycles@[q]@));
        }
    }
    false
}

/// The position of the first `x` in `s`, which holds it.
fn first_position(s: &Vec<String>, x: &str) -> (r: usize)
    requires
        views_of(s@).contains(x@),
    ensures
        r == first_pos(views_of(s@), x@),
        r < s@.len(),
{
    let ghost sv = views_of(s@);
    let mut i: usize = 0;
    assert(sv.skip(0) =~= sv);
    while i < s.len()
        invariant
            i <= s@.len(),
            sv == views_of(s@),
            sv.contains(x@),
            forall|j: int| 0 <= j < i ==> sv[j] != x@,
            first_pos(sv, x@) == i + first_pos(sv.skip(i as int), x@),
        decreases s@.len() - i,
    {
        assert(sv.skip(i as int)[0] == s@[i as int]@);
        if str_eq(s[i].as_str(), x) {
            return i;
        }
        assert(sv.skip(i as int).drop_first() =~= sv.skip(i + 1));
        i = i + 1;
    }
    proof {
        let q = sv.index_of(x@);
        assert(sv[q] == x@);
    }
    0
}

/// The names `s[from..]`, copied.
fn copy_from(s: &Vec<String>, from: usize) -> (r: Vec<String>)
    requires
        from <= s@.len(),
    ensures
        views_of(r@) == views_of(s@).subrange(from as int, s@.len() as int),
{
    let mut r: Vec<String> = Vec::new();
    let mut i = from;
    while i < s.len()
        invariant
            from <= i <= s@.len(),
            views_of(r@) == views_of(s@).subrange(from as int, i as int),
        decreases s@.len() - i,
    {
        let ghost before = views_of(r@);
        r.push(s[i].clone());
        assert(views_of(r@) =~= before.push(s@[i as int]@));
        assert(views_of(r@) =~= views_of(s@).subrange(from as int, i + 1));
        i = i + 1;
    }
    r
}

/// Visits `pkg` in the search for cycles.
#[verifier::rlimit(40)]
fn walk_cycles(t: &Tracker, pkg: &str, w: &mut CycleWalk, Ghost(budget): Ghost<nat>, Ghost(u): Ghost<Seq<Seq<char>>>)
    requires
        t.wf(),
        u.contains(pkg@),
        forall|d: Seq<char>| flat_names(t.dependency_cache.direct_deps.vals@).contains(d) ==> u.contains(d),
        cycle_ok(*old(w), u, budget),
    ensures
        cycle_view(*final(w)) == cycle_node(t.graph(), t.files(), pkg@, cycle_view(*old(w)), budget),
        cycle_ok(*final(w), u, budget),
        views_of(old(w).visited@).len() <= views_of(final(w).visited@).len(),
        final(w).need is None ==> views_of(final(w).path@) == views_of(old(w).path@),
    decreases budget,
{
    let ghost st0 = cycle_view(*w);
    if w.need.is_some() {
        return;
    }
    if contains_name(&w.path, pkg) {
        let start = first_position(&w.path, pkg);
        let cycle = copy_from(&w.path, start);
        if !has_cycle(&w.cycles, &cycle) {
            w.cycles.push(cycle);
            assert(cycle_view(*w).cycles =~= st0.cycles.push(views_of(cycle@)));
            assert(cycle_view(*w) =~= CycleState { cycles: st0.cycles.push(views_of(cycle@)), ..st0 });
        }
        return;
    }
    if contains_name(&w.visited, pkg) {
        return;
    }
    proof {
        crate::graph::lemma_no_dup_push(views_of(w.visited@), pkg@);
        crate::graph::lemma_contains_push(views_of(w.visited@), pkg@);
        lemma_distinct_within(views_of(w.visited@).push(pkg@), u);
    }
    w.visited.push(owned(pkg));
    w.path.push(owned(pkg));
    let ghost st1 = cycle_view(*w);
    proof {
        assert(views_of(w.visited@) =~= st0.visited.push(pkg@));
        assert(st1.visited =~= st0.visited.push(pkg@));
        assert(st1.path =~= st0.path.push(pkg@));
        assert(st1 =~= CycleState { visited: st0.visited.push(pkg@), path: st0.path.push(pkg@), ..st0 });
    }
    match t.get_dependencies(pkg) {
        DepLookup::Unknown(n) => {
            w.need = Some(n);
            assert(cycle_view(*w) =~= CycleState { need: Some(resolved(t.files(), pkg@)), ..st1 });
        },
        DepLookup::Known(deps) => {
            let ghost dv = views_of(deps@);
            let ghost b1: nat = (budget - 1) as nat;
            let ghost v1 = views_of(w.visited@).len();
            let mut i: usize = 0;
            while i < deps.len() && w.need.is_none()
                invariant
                    t.wf(),
                    i <= deps@.len(),
                    dv == views_of(deps@),
                    dv == crate::graph::deps_of(t.graph(), t.files(), pkg@),
                    t.graph().contains_key(resolved(t.files(), pkg@)),
                    forall|d: Seq<char>| flat_names(t.dependency_cache.direct_deps.vals@).contains(d) ==> u.contains(d),
                    cycle_ok(*w, u, b1),
                    v1 <= views_of(w.visited@).len(),
                    v1 == st0.visited.len() + 1,
                    budget >= 1,
                    b1 == budget - 1,
                    w.need.is_none() ==> views_of(w.path@) == st1.path,
                    cycle_list(t.graph(), t.files(), dv, 0, st1, b1) == cycle_list(
                        t.graph(),
                        t.files(),
                        dv,
                        i as int,
                        cycle_view(*w),
                        b1,
                    ),
                decreases deps@.len() - i,
            {
                let dep = &deps[i];
                assert(dv[i as int] == dep@);
                proof {
                    assert(dv.contains(dep@));
                    lemma_recorded_dep_named(t.dependency_cache.direct_deps, resolved(t.files(), pkg@), dep@);
                }
                walk_cycles(t, dep.as_str(), w, Ghost(b1), Ghost(u));
                i = i + 1;
            }
            if w.need.is_none() {
                let ghost s2 = cycle_view(*w);
                w.path.pop();
                proof {
                    assert(views_of(w.path@) =~= s2.path.drop_last());
                    assert(cycle_view(*w) =~= CycleState { path: s2.path.drop_last(), ..s2 });
                    assert(views_of(w.path@) =~= st0.path);
                }
            }
        },
    }
}

/// The dependency tree walked from `root` through the tracker's recorded dependencies.
pub open spec fn tree_of(t: Tracker, root: Seq<char>) -> TreeState {
    tree_node(t.graph(), t.files(), t.installed(), root, 0, tree_start())
}

/// The cycles searched from `root` through the tracker's recorded dependencies.
pub open spec fn cycles_of(t: Tracker, root: Seq<char>) -> CycleState {
    cycle_node(t.graph(), t.files(), root, cycle_start(), walk_names(t, root).len())
}

impl Analyzer {
    /// The dependency tree of `package`, walked depth first through the recorded
    /// dependencies and down to depth 11 (a package is expanded once): its nodes, in
    /// the order met, and the largest depth expanded. Or the name whose dependencies
    /// are needed.
    pub fn build_dependency_tree(&self, package: &str) -> (r: Result<(Vec<DependencyNode>, usize), String>)
        requires
            self.tracker.wf(),
        ensures
            r is Ok == tree_of(self.tracker, package@).need is None,
            r matches Ok((nodes, depth)) ==> nodes@.map_values(|n: DependencyNode| node_view(n)) == tree_of(
                self.tracker,
                package@,
            ).nodes && depth == tree_of(self.tracker, package@).max_depth,
            r matches Err(n) ==> tree_of(self.tracker, package@).need == Some(n@),
    {
        let installed = self.tracker.get_installed_packages_all();
        let mut w = TreeWalk { visited: Vec::new(), nodes: Vec::new(), max_depth: 0, need: None };
        assert(views_of(w.visited@) =~= Seq::<Seq<char>>::empty());
        assert(w.nodes@.map_values(|n: DependencyNode| node_view(n)) =~= Seq::<NodeModel>::empty());
        assert(tree_view(w) == tree_start());
        walk_tree(&self.tracker, &installed, package, 0, &mut w);
        match w.need {
            Some(n) => Err(n),
            None => Ok((w.nodes, w.max_depth)),
        }
    }

    /// The dependency cycles met searching depth first from `package` through the
    /// recorded dependencies, each from the first place of its package on the path, each
    /// once. Or the name whose dependencies are needed.
    pub fn find_cycles(&self, package: &str) -> (r: Result<Vec<Vec<String>>, String>)
        requires
            self.tracker.wf(),
        ensures
            r is Ok == cycles_of(self.tracker, package@).need is None,
            r matches Ok(c) ==> cycles_view(c@) == cycles_of(self.tracker, package@).cycles,
            r matches Err(n) ==> cycles_of(self.tracker, package@).need == Some(n@),
    {
        let ghost u = walk_names(self.tracker, package@);
        let mut w = CycleWalk { visited: Vec::new(), path: Vec::new(), cycles: Vec::new(), need: None };
        proof {
            assert(views_of(w.visited@) =~= Seq::<Seq<char>>::empty());
            assert(views_of(w.path@) =~= Seq::<Seq<char>>::empty());
            assert(cycles_view(w.cycles@) =~= Seq::<Seq<Seq<char>>>::empty());
            assert(cycle_view(w) == cycle_start());
            assert(u[u.len() - 1] == package@);
            assert forall|d: Seq<char>| flat_names(self.tracker.dependency_cache.direct_deps.vals@).contains(d) implies u.contains(d) by {
                let j = flat_names(self.tracker.dependency_cache.direct_deps.vals@).index_of(d);
                assert(u[j] == d);
            }
            assert(views_of(w.visited@) =~= Seq::<Seq<char>>::empty());
        }
        walk_cycles(&self.tracker, package, &mut w, Ghost(u.len()), Ghost(u));
        match w.need {
            Some(n) => Err(n),
            None => Ok(w.cycles),
        }
    }

    /// The dependency graph of `package`: the packages depending on it (see
    /// `Tracker::get_reverse_dependencies`), its dependency tree and the cycles met.
    /// Or the names whose dependencies are needed first.
    pub fn get_dependency_graph(&mut self, package: &str) -> (r: Result<DependencyGraph, Vec<String>>)
        requires
            old(self).tracker.wf(),
        ensures
            final(self).tracker.wf(),
            final(self).tracker.graph() == old(self).tracker.graph(),
            final(self).tracker.files() == old(self).tracker.files(),
            final(self).tracker.installed() == old(self).tracker.installed(),
            final(self).tracker.cache_manager == old(self).tracker.cache_manager,
            final(self).tracker.dependency_cache.direct_deps == old(self).tracker.dependency_cache.direct_deps,
            final(self).tracker.file_map_cache == old(self).tracker.file_map_cache,
            final(self).tracker.usage_cache == old(self).tracker.usage_cache,
            !old(self).tracker.dependency_cache.reverse_deps.map().contains_key(package@) && unrecorded_among(
                old(self).tracker.installed(),
                old(self).tracker.graph(),
                old(self).tracker.files(),
            ).len() > 0 ==> (r matches Err(m) && views_of(m@) == unrecorded_among(
                old(self).tracker.installed(),
                old(self).tracker.graph(),
                old(self).tracker.files(),
            )),
            old(self).tracker.dependency_cache.reverse_deps.map().contains_key(package@) || unrecorded_among(
                old(self).tracker.installed(),
                old(self).tracker.graph(),
                old(self).tracker.files(),
            ).len() == 0 ==> {
                let tree = tree_of(old(self).tracker, package@);
                let cyc = cycles_of(old(self).tracker, package@);
                &&& (r is Ok == (tree.need is None && cyc.need is None))
                &&& (tree.need matches Some(n) ==> (r matches Err(m) && views_of(m@) == seq![n]))
                &&& (tree.need is None ==> (cyc.need matches Some(n) ==> (r matches Err(m) && views_of(m@) == seq![n])))
                &&& (r matches Ok(gr) ==> {
                    &&& gr.root@ == package@
                    &&& views_of(gr.dependents@) == if old(self).tracker.dependency_cache.reverse_deps.map().contains_key(
                        package@,
                    ) {
                        views_of(old(self).tracker.dependency_cache.reverse_deps.map()[package@]@)
                    } else {
                        dependents_among(
                            old(self).tracker.installed(),
                            old(self).tracker.graph(),
                            old(self).tracker.files(),
                            package@,
                        )
                    }
                    &&& gr.dependencies@.map_values(|n: DependencyNode| node_view(n)) == tree.nodes
                    &&& gr.depth == tree.max_depth
                    &&& cycles_view(gr.cycles@) == cyc.cycles
                    &&& gr.total_nodes == if tree.nodes.len() < usize::MAX {
                        tree.nodes.len() + 1
                    } else {
                        tree.nodes.len()
                    }
                })
            },
    {
        let dependents = match self.tracker.get_reverse_dependencies(package) {
            Ok(v) => v,
            Err(m) => {
                return Err(m);
            },
        };
        let (nodes, depth) = match self.build_dependency_tree(package) {
            Ok(t) => t,
            Err(n) => {
                let mut m: Vec<String> = Vec::new();
                m.push(n);
                assert(views_of(m@) =~= seq![m@[0]@]);
                return Err(m);
            },
        };
        let cycles = match self.find_cycles(package) {
            Ok(c) => c,
            Err(n) => {
                let mut m: Vec<String> = Vec::new();
                m.push(n);
                assert(views_of(m@) =~= seq![m@[0]@]);
                return Err(m);
            },
        };
        assert(nodes@.map_values(|n: DependencyNode| node_view(n)).len() == nodes@.len());
        let total = if nodes.len() < usize::MAX {
            nodes.len() + 1
        } else {
            nodes.len()
        };
        Ok(
            DependencyGraph {
                root: owned(package),
                dependencies: nodes,
                dependents,
                depth,
                cycles,
                total_nodes: total,
            },
        )
    }
}

/// What a search for a dependency chain has done so far: the packages visited, the path
/// from the start to the current package, the chain found (empty while none is), and
/// the name whose dependencies are needed, if the search stopped.
pub struct ChainState {
    pub visited: Seq<Seq<char>>,
    pub path: Seq<Seq<char>>,
    pub found: Seq<Seq<char>>,
    pub need: Option<Seq<char>>,
}

/// Visits `cur` in the search for a chain to `target`: unless already visited or a
/// chain is found, it joins the path; reaching `target` makes the path the chain found;
/// otherwise its dependencies are searched in order.
pub open spec fn chain_node(
    g: Map<Seq<char>, Vec<String>>,
    fm: Map<Seq<char>, String>,
    cur: Seq<char>,
    target: Seq<char>,
    st: ChainState,
    budget: nat,
) -> ChainState
    decreases budget, 0int, 0int,
{
    if st.need is Some || st.visited.contains(cur) || st.found.len() > 0 || budget == 0 {
        st
    } else {
        let st1 = ChainState { visited: st.visited.push(cur), path: st.path.push(cur), ..st };
        if cur == target {
            ChainState { found: st1.path, ..st1 }
        } else {
            let n = resolved(fm, cur);
            if !g.contains_key(n) {
                ChainState { need: Some(n), ..st1 }
            } else {
                let st2 = chain_list(g, fm, views_of(g[n]@), 0, target, st1, (budget - 1) as nat);
                if st2.need is Some {
                    st2
                } else {
                    ChainState { path: st2.path.drop_last(), ..st2 }
                }
            }
        }
    }
}

/// Searches the dependencies `deps[i..]` for a chain to `target`, stopping once one is found.
pub open spec fn chain_list(
    g: Map<Seq<char>, Vec<String>>,
    fm: Map<Seq<char>, String>,
    deps: Seq<Seq<char>>,
    i: int,
    target: Seq<char>,
    st: ChainState,
    budget: nat,
) -> ChainState
    decreases budget, 1int, deps.len() - i,
{
    if i < 0 || i >= deps.len() || st.need is Some || st.found.len() > 0 {
        st
    } else {
        chain_list(g, fm, deps, i + 1, target, chain_node(g, fm, deps[i], target, st, budget), budget)
    }
}

/// A chain search that has not started.
pub open spec fn chain_start() -> ChainState {
    ChainState { visited: Seq::empty(), path: Seq::empty(), found: Seq::empty(), need: None }
}

/// The chain search from `from` to `to` through the tracker's recorded dependencies.
pub open spec fn chain_of(t: Tracker, from: Seq<char>, to: Seq<char>) -> ChainState {
    chain_node(t.graph(), t.files(), from, to, chain_start(), walk_names(t, from).len())
}

/// Why no dependency chain is given.
#[derive(Debug)]
pub enum ChainError {
    /// No chain leads from the first package to the second.
    NoPath(String, String),
    /// The dependencies of this name are needed to go on.
    Unrecorded(String),
}

impl ChainError {
    /// The message that reports the error.
    pub open spec fn text(self) -> Seq<char> {
        match self {
            ChainError::NoPath(a, b) => "No path found from "@ + a@ + " to "@ + b@,
            ChainError::Unrecorded(n) => "Dependencies of "@ + n@ + " are not recorded"@,
        }
    }

    /// The message that reports the error.
    pub fn message(&self) -> (s: String)
        ensures
            s@ == self.text(),
    {
        match self {
            ChainError::NoPath(a, b) => {
                let mut s = owned("No path found from ");
                push_str(&mut s, a.as_str());
                push_str(&mut s, " to ");
                push_str(&mut s, b.as_str());
                s
            },
            ChainError::Unrecorded(n) => {
                let mut s = owned("Dependencies of ");
                push_str(&mut s, n.as_str());
                push_str(&mut s, " are not recorded");
                s
            },
        }
    }
}

/// The exec state of a chain search.
struct ChainWalk {
    visited: Vec<String>,
    path: Vec<String>,
    found: Vec<String>,
    need: Option<String>,
}

/// The model of a chain search.
spec fn chain_view(w: ChainWalk) -> ChainState {
    ChainState {
        visited: views_of(w.visited@),
        path: views_of(w.path@),
        found: views_of(w.found@),
        need: opt_view(w.need),
    }
}

/// The invariant of a chain search within the names `u`, with `budget` left.
spec fn chain_ok(w: ChainWalk, u: Seq<Seq<char>>, budget: nat) -> bool {
    &&& views_of(w.visited@).no_duplicates()
    &&& forall|x: Seq<char>| #[trigger] views_of(w.visited@).contains(x) ==> u.contains(x)
    &&& u.len() <= budget + views_of(w.visited@).len()
}

/// Visits `cur` in the search for a chain to `target`.
#[verifier::rlimit(40)]
fn walk_chain(
    t: &Tracker,
    cur: &str,
    target: &str,
    w: &mut ChainWalk,
    Ghost(budget): Ghost<nat>,
    Ghost(u): Ghost<Seq<Seq<char>>>,
)
    requires
        t.wf(),
        u.contains(cur@),
        forall|d: Seq<char>| flat_names(t.dependency_cache.direct_deps.vals@).contains(d) ==> u.contains(d),
        chain_ok(*old(w), u, budget),
    ensures
        chain_view(*final(w)) == chain_node(t.graph(), t.files(), cur@, target@, chain_view(*old(w)), budget),
        chain_ok(*final(w), u, budget),
        views_of(old(w).visited@).len() <= views_of(final(w).visited@).len(),
        final(w).need is None && final(w).found@.len() == 0 ==> views_of(final(w).path@) == views_of(old(w).path@),
        views_of(old(w).path@).len() <= views_of(final(w).path@).len(),
    decreases budget,
{
    let ghost st0 = chain_view(*w);
    if w.need.is_some() || w.found.len() > 0 || contains_name(&w.visited, cur) {
        return;
    }
    proof {
        crate::graph::lemma_no_dup_push(views_of(w.visited@), cur@);
        crate::graph::lemma_contains_push(views_of(w.visited@), cur@);
        lemma_distinct_within(views_of(w.visited@).push(cur@), u);
    }
    w.visited.push(owned(cur));
    w.path.push(owned(cur));
    let ghost st1 = chain_view(*w);
    proof {
        assert(views_of(w.visited@) =~= st0.visited.push(cur@));
        assert(views_of(w.path@) =~= st0.path.push(cur@));
        assert(st1 == ChainState { visited: st0.visited.push(cur@), path: st0.path.push(cur@), ..st0 });
    }
    if str_eq(cur, target) {
        let mut found: Vec<String> = Vec::new();
        let mut k: usize = 0;
        while k < w.path.len()
            invariant
                k <= w.path@.len(),
                views_of(found@) == views_of(w.path@).take(k as int),
            decreases w.path@.len() - k,
        {
            let ghost before = views_of(found@);
            found.push(w.path[k].clone());
            assert(views_of(found@) =~= before.push(w.path@[k as int]@));
            assert(views_of(found@) =~= views_of(w.path@).take(k + 1));
            k = k + 1;
        }
        assert(views_of(w.path@).take(w.path@.len() as int) =~= views_of(w.path@));
        w.found = found;
        assert(chain_view(*w) == ChainState { found: st1.path, ..st1 });
        return;
    }
    match t.get_dependencies(cur) {
        DepLookup::Unknown(n) => {
            w.need = Some(n);
            assert(chain_view(*w) == ChainState { need: Some(resolved(t.files(), cur@)), ..st1 });
        },
        DepLookup::Known(deps) => {
            let ghost dv = views_of(deps@);
            let ghost b1: nat = (budget - 1) as nat;
            let ghost v1 = views_of(w.visited@).len();
            let mut i: usize = 0;
            while i < deps.len() && w.need.is_none() && w.found.len() == 0
                invariant
                    t.wf(),
                    i <= deps@.len(),
                    dv == views_of(deps@),
                    dv == crate::graph::deps_of(t.graph(), t.files(), cur@),
                    t.graph().contains_key(resolved(t.files(), cur@)),
                    forall|d: Seq<char>| flat_names(t.dependency_cache.direct_deps.vals@).contains(d) ==> u.contains(d),
                    chain_ok(*w, u, b1),
                    v1 <= views_of(w.visited@).len(),
                    v1 == st0.visited.len() + 1,
                    budget >= 1,
                    b1 == budget - 1,
                    w.need.is_none() && w.found@.len() == 0 ==> views_of(w.path@) == st1.path,
                    views_of(w.path@).len() >= st1.path.len(),
                    st1.path.len() == st0.path.len() + 1,
                    chain_list(t.graph(), t.files(), dv, 0, target@, st1, b1) == chain_list(
                        t.graph(),
                        t.files(),
                        dv,
                        i as int,
                        target@,
                        chain_view(*w),
                        b1,
                    ),
                decreases deps@.len() - i,
            {
                let dep = &deps[i];
                assert(dv[i as int] == dep@);
                proof {
                    assert(dv.contains(dep@));
                    lemma_recorded_dep_named(t.dependency_cache.direct_deps, resolved(t.files(), cur@), dep@);
                }
                walk_chain(t, dep.as_str(), target, w, Ghost(b1), Ghost(u));
                i = i + 1;
            }
            if w.need.is_none() {
                let ghost s2 = chain_view(*w);
                let _ = w.path.pop();
                proof {
                    assert(views_of(w.path@) =~= s2.path.drop_last());
                    assert(chain_view(*w) == ChainState { path: s2.path.drop_last(), ..s2 });
                    if w.found@.len() == 0 {
                        assert(views_of(w.path@) =~= st0.path);
                    }
                }
            }
        },
    }
}

impl Analyzer {
    /// A dependency chain from `from` to `to`: the path of the first depth-first search
    /// through the recorded dependencies that reaches `to`. Or why there is none.
    pub fn get_dependency_chain(&self, from: &str, to: &str) -> (r: Result<Vec<String>, ChainError>)
        requires
            self.tracker.wf(),
        ensures
            ({
                let st = chain_of(self.tracker, from@, to@);
                &&& r is Ok == (st.need is None && st.found.len() > 0)
                &&& (r matches Ok(v) ==> views_of(v@) == st.found)
                &&& (st.need matches Some(n) ==> (r matches Err(ChainError::Unrecorded(m)) && m@ == n))
                &&& (st.need is None && st.found.len() == 0 ==> (r matches Err(ChainError::NoPath(a, b)) && a@ == from@ && b@ == to@))
            }),
    {
        let ghost u = walk_names(self.tracker, from@);
        let mut w = ChainWalk { visited: Vec::new(), path: Vec::new(), found: Vec::new(), need: None };
        proof {
            assert(views_of(w.visited@) =~= Seq::<Seq<char>>::empty());
            assert(views_of(w.path@) =~= Seq::<Seq<char>>::empty());
            assert(views_of(w.found@) =~= Seq::<Seq<char>>::empty());
            assert(chain_view(w) == chain_start());
            assert(u[u.len() - 1] == from@);
            assert forall|d: Seq<char>| flat_names(self.tracker.dependency_cache.direct_deps.vals@).contains(d) implies u.contains(d) by {
                let j = flat_names(self.tracker.dependency_cache.direct_deps.vals@).index_of(d);
                assert(u[j] == d);
            }
        }
        walk_chain(&self.tracker, from, to, &mut w, Ghost(u.len()), Ghost(u));
        match w.need {
            Some(n) => Err(ChainError::Unrecorded(n)),
            None => if w.found.len() > 0 {
                assert(views_of(w.found@).len() == w.found@.len());
                Ok(w.found)
            } else {
                Err(ChainError::NoPath(owned(from), owned(to)))
            },
        }
    }
}

/// Each name of `p` lists the next among its recorded dependencies.
pub open spec fn is_dep_chain(g: Map<Seq<char>, Vec<String>>, fm: Map<Seq<char>, String>, p: Seq<Seq<char>>) -> bool {
    forall|k: int| 0 <= k < p.len() - 1 ==> #[trigger] deps_of(g, fm, p[k]).contains(p[k + 1])
}

/// Whether `found` is empty or a chain from `root` to `target`.
pub open spec fn found_ok(
    g: Map<Seq<char>, Vec<String>>,
    fm: Map<Seq<char>, String>,
    found: Seq<Seq<char>>,
    root: Seq<char>,
    target: Seq<char>,
) -> bool {
    found.len() > 0 ==> found[0] == root && found.last() == target && is_dep_chain(g, fm, found)
}

/// Pushing a dependency of the last name keeps a chain.
proof fn lemma_chain_push(g: Map<Seq<char>, Vec<String>>, fm: Map<Seq<char>, String>, p: Seq<Seq<char>>, x: Seq<char>)
    requires
        is_dep_chain(g, fm, p),
        p.len() > 0 ==> deps_of(g, fm, p.last()).contains(x),
    ensures
        is_dep_chain(g, fm, p.push(x)),
{
    assert forall|k: int| 0 <= k < p.push(x).len() - 1 implies #[trigger] deps_of(g, fm, p.push(x)[k]).contains(
        p.push(x)[k + 1],
    ) by {
        if k < p.len() - 1 {
            assert(p.push(x)[k] == p[k] && p.push(x)[k + 1] == p[k + 1]);
        } else {
            assert(p.push(x)[k] == p.last());
        }
    }
}

/// The chain search only ever finds chains from its root to its target.
proof fn lemma_chain_node(
    g: Map<Seq<char>, Vec<String>>,
    fm: Map<Seq<char>, String>,
    cur: Seq<char>,
    target: Seq<char>,
    st: ChainState,
    budget: nat,
    root: Seq<char>,
)
    requires
        is_dep_chain(g, fm, st.path),
        st.path.len() == 0 ==> cur == root,
        st.path.len() > 0 ==> st.path[0] == root && deps_of(g, fm, st.path.last()).contains(cur),
        found_ok(g, fm, st.found, root, target),
    ensures
        found_ok(g, fm, chain_node(g, fm, cur, target, st, budget).found, root, target),
        chain_node(g, fm, cur, target, st, budget).need is None && chain_node(g, fm, cur, target, st, budget).found.len()
            == 0 ==> chain_node(g, fm, cur, target, st, budget).path == st.path,
    decreases budget, 0int, 0int,
{
    if st.need is Some || st.visited.contains(cur) || st.found.len() > 0 || budget == 0 {
    } else {
        let st1 = ChainState { visited: st.visited.push(cur), path: st.path.push(cur), ..st };
        lemma_chain_push(g, fm, st.path, cur);
        assert(st1.path[0] == root);
        if cur == target {
        } else {
            let n = resolved(fm, cur);
            if g.contains_key(n) {
                let deps = views_of(g[n]@);
                assert(st1.path.last() == cur);
                lemma_chain_list(g, fm, deps, 0, target, st1, (budget - 1) as nat, root);
                let st2 = chain_list(g, fm, deps, 0, target, st1, (budget - 1) as nat);
                if st2.need is None && st2.found.len() == 0 {
                    assert(st2.path.drop_last() =~= st.path);
                }
            }
        }
    }
}

/// The chain search over dependencies only ever finds chains from its root to its target.
proof fn lemma_chain_list(
    g: Map<Seq<char>, Vec<String>>,
    fm: Map<Seq<char>, String>,
    deps: Seq<Seq<char>>,
    i: int,
    target: Seq<char>,
    st: ChainState,
    budget: nat,
    root: Seq<char>,
)
    requires
        is_dep_chain(g, fm, st.path),
        st.path.len() > 0,
        st.path[0] == root,
        forall|j: int| 0 <= j < deps.len() ==> deps_of(g, fm, st.path.last()).contains(#[trigger] deps[j]),
        found_ok(g, fm, st.found, root, target),
    ensures
        found_ok(g, fm, chain_list(g, fm, deps, i, target, st, budget).found, root, target),
        chain_list(g, fm, deps, i, target, st, budget).need is None && chain_list(g, fm, deps, i, target, st, budget).found.len()
            == 0 ==> chain_list(g, fm, deps, i, target, st, budget).path == st.path,
    decreases budget, 1int, deps.len() - i,
{
    if i < 0 || i >= deps.len() || st.need is Some || st.found.len() > 0 {
    } else {
        assert(deps_of(g, fm, st.path.last()).contains(deps[i]));
        lemma_chain_node(g, fm, deps[i], target, st, budget, root);
        let st2 = chain_node(g, fm, deps[i], target, st, budget);
        if st2.need is None && st2.found.len() == 0 {
            lemma_chain_list(g, fm, deps, i + 1, target, st2, budget, root);
        }
    }
}

/// A dependency chain found from `from` to `to` starts at `from`, ends at `to`, and
/// each package on it lists the next among its recorded dependencies.
pub proof fn law_chain_follows_dependencies(t: Tracker, from: Seq<char>, to: Seq<char>)
    requires
        chain_of(t, from, to).found.len() > 0,
    ensures
        chain_of(t, from, to).found[0] == from,
        chain_of(t, from, to).found.last() == to,
        is_dep_chain(t.graph(), t.files(), chain_of(t, from, to).found),
{
    lemma_chain_node(t.graph(), t.files(), from, to, chain_start(), walk_names(t, from).len(), from);
}

/// Whether a chain search state has neither stopped for a missing list nor found a chain.
spec fn chain_clean(st: ChainState) -> bool {
    st.need is None && st.found.len() == 0
}

/// The search's bookkeeping within the names `u`, with `budget` calls left: the visited
/// names are distinct names of `u`, and the budget covers the names not yet visited.
spec fn chain_room(st: ChainState, u: Seq<Seq<char>>, budget: nat) -> bool {
    &&& st.visited.no_duplicates()
    &&& forall|x: Seq<char>| #[trigger] st.visited.contains(x) ==> u.contains(x)
    &&& u.len() <= budget + st.visited.len()
}

/// Every name visited in `vis` but not in `before` is not the target, has recorded
/// dependencies, and all of them are visited in `vis`.
spec fn closed_after(
    g: Map<Seq<char>, Vec<String>>,
    fm: Map<Seq<char>, String>,
    target: Seq<char>,
    before: Seq<Seq<char>>,
    vis: Seq<Seq<char>>,
) -> bool {
    forall|x: Seq<char>|
        #[trigger] vis.contains(x) && !before.contains(x) ==> x != target && g.contains_key(resolved(fm, x)) && (
        forall|d: Seq<char>| #[trigger] deps_of(g, fm, x).contains(d) ==> vis.contains(d))
}

/// A search from `cur` that ends without a chain and without a missing list has visited
/// `cur`, and every name it newly visited had all its dependencies visited.
proof fn lemma_chain_node_closed(
    g: Map<Seq<char>, Vec<String>>,
    fm: Map<Seq<char>, String>,
    cur: Seq<char>,
    target: Seq<char>,
    st: ChainState,
    budget: nat,
    u: Seq<Seq<char>>,
)
    requires
        chain_room(st, u, budget),
        u.contains(cur),
        forall|x: Seq<char>, d: Seq<char>| #[trigger] deps_of(g, fm, x).contains(d) ==> u.contains(d),
    ensures
        ({
            let r = chain_node(g, fm, cur, target, st, budget);
            &&& r.visited.no_duplicates()
            &&& forall|x: Seq<char>| #[trigger] r.visited.contains(x) ==> u.contains(x)
            &&& r.visited.len() >= st.visited.len()
            &&& forall|x: Seq<char>| st.visited.contains(x) ==> #[trigger] r.visited.contains(x)
            &&& chain_clean(r) ==> chain_clean(st) && r.visited.contains(cur) && closed_after(g, fm, target, st.visited, r.visited)
        }),
    decreases budget, 0int, 0int,
{
    let r = chain_node(g, fm, cur, target, st, budget);
    if st.need is Some || st.visited.contains(cur) || st.found.len() > 0 {
    } else if budget == 0 {
        crate::graph::lemma_no_dup_push(st.visited, cur);
        crate::graph::lemma_contains_push(st.visited, cur);
        lemma_distinct_within(st.visited.push(cur), u);
    } else {
        let st1 = ChainState { visited: st.visited.push(cur), path: st.path.push(cur), ..st };
        crate::graph::lemma_no_dup_push(st.visited, cur);
        crate::graph::lemma_contains_push(st.visited, cur);
        if cur == target {
        } else {
            let n = resolved(fm, cur);
            if g.contains_key(n) {
                let deps = views_of(g[n]@);
                let b1 = (budget - 1) as nat;
                assert(chain_room(st1, u, b1));
                assert forall|j: int| 0 <= j < deps.len() implies u.contains(#[trigger] deps[j]) by {
                    assert(deps_of(g, fm, cur) == deps);
                    assert(deps_of(g, fm, cur).contains(deps[j]));
                }
                lemma_chain_list_closed(g, fm, deps, 0, target, st1, b1, u);
                let st2 = chain_list(g, fm, deps, 0, target, st1, b1);
                assert(r.visited == st2.visited);
                if chain_clean(r) {
                    assert(chain_clean(st2));
                    assert forall|x: Seq<char>| #[trigger] r.visited.contains(x) && !st.visited.contains(x) implies x
                        != target && g.contains_key(resolved(fm, x)) && (forall|d: Seq<char>|
                        #[trigger] deps_of(g, fm, x).contains(d) ==> r.visited.contains(d)) by {
                        if x == cur {
                            assert forall|d: Seq<char>| #[trigger] deps_of(g, fm, x).contains(d) implies r.visited.contains(
                                d,
                            ) by {
                                let j = deps.index_of(d);
                                assert(deps[j] == d);
                            }
                        } else {
                            assert(!st1.visited.contains(x));
                        }
                    }
                }
            }
        }
    }
}

/// A search through `deps[i..]` that ends without a chain and without a missing list
/// has visited each of them, and every name it newly visited had all its dependencies
/// visited.
proof fn lemma_chain_list_closed(
    g: Map<Seq<char>, Vec<String>>,
    fm: Map<Seq<char>, String>,
    deps: Seq<Seq<char>>,
    i: int,
    target: Seq<char>,
    st: ChainState,
    budget: nat,
    u: Seq<Seq<char>>,
)
    requires
        0 <= i,
        chain_room(st, u, budget),
        forall|j: int| 0 <= j < deps.len() ==> u.contains(#[trigger] deps[j]),
        forall|x: Seq<char>, d: Seq<char>| #[trigger] deps_of(g, fm, x).contains(d) ==> u.contains(d),
    ensures
        ({
            let r = chain_list(g, fm, deps, i, target, st, budget);
            &&& r.visited.no_duplicates()
            &&& forall|x: Seq<char>| #[trigger] r.visited.contains(x) ==> u.contains(x)
            &&& r.visited.len() >= st.visited.len()
            &&& forall|x: Seq<char>| st.visited.contains(x) ==> #[trigger] r.visited.contains(x)
            &&& chain_clean(r) ==> chain_clean(st) && (forall|j: int| i <= j < deps.len() ==> r.visited.contains(
                #[trigger] deps[j],
            )) && closed_after(g, fm, target, st.visited, r.visited)
        }),
    decreases budget, 1int, deps.len() - i,
{
    if i >= deps.len() || st.need is Some || st.found.len() > 0 {
    } else {
        lemma_chain_node_closed(g, fm, deps[i], target, st, budget, u);
        let st2 = chain_node(g, fm, deps[i], target, st, budget);
        assert(chain_room(st2, u, budget));
        lemma_chain_list_closed(g, fm, deps, i + 1, target, st2, budget, u);
        let r = chain_list(g, fm, deps, i + 1, target, st2, budget);
        if chain_clean(r) {
            assert(chain_clean(st2));
            assert forall|j: int| i <= j < deps.len() implies r.visited.contains(#[trigger] deps[j]) by {
                if j == i {
                    assert(st2.visited.contains(deps[i]));
                }
            }
            assert forall|x: Seq<char>| #[trigger] r.visited.contains(x) && !st.visited.contains(x) implies x != target
                && g.contains_key(resolved(fm, x)) && (forall|d: Seq<char>|
                #[trigger] deps_of(g, fm, x).contains(d) ==> r.visited.contains(d)) by {
                if st2.visited.contains(x) {
                    assert forall|d: Seq<char>| #[trigger] deps_of(g, fm, x).contains(d) implies r.visited.contains(d) by {
                        assert(st2.visited.contains(d));
                    }
                }
            }
        }
    }
}

/// The chain search is complete: when `to` is reached from `from` through recorded
/// dependencies (a chain `p` from `from` to `to`, each name listing the next), the search
/// finds a chain or stops for a missing dependency list; it never reports that there is
/// no path.
pub proof fn law_chain_search_complete(t: Tracker, from: Seq<char>, to: Seq<char>, p: Seq<Seq<char>>)
    requires
        t.wf(),
        p.len() > 0,
        p[0] == from,
        p.last() == to,
        is_dep_chain(t.graph(), t.files(), p),
    ensures
        chain_of(t, from, to).need is Some || chain_of(t, from, to).found.len() > 0,
{
    let g = t.graph();
    let fm = t.files();
    let u = walk_names(t, from);
    let r = chain_of(t, from, to);
    assert(u[u.len() - 1] == from);
    assert forall|x: Seq<char>, d: Seq<char>| #[trigger] deps_of(g, fm, x).contains(d) implies u.contains(d) by {
        let n = resolved(fm, x);
        lemma_recorded_dep_named(t.dependency_cache.direct_deps, n, d);
        let j = flat_names(t.dependency_cache.direct_deps.vals@).index_of(d);
        assert(u[j] == d);
    }
    assert(chain_room(chain_start(), u, u.len()));
    lemma_chain_node_closed(g, fm, from, to, chain_start(), u.len(), u);
    if chain_clean(r) {
        assert forall|k: int| 0 <= k < p.len() implies r.visited.contains(#[trigger] p[k]) by {
            lemma_chain_prefix_visited(g, fm, to, r.visited, p, k);
        }
        assert(r.visited.contains(p[p.len() - 1]));
        assert(!chain_start().visited.contains(to));
    }
}

/// In a closed search from `p[0]`, each name of a dependency chain `p` is visited.
proof fn lemma_chain_prefix_visited(
    g: Map<Seq<char>, Vec<String>>,
    fm: Map<Seq<char>, String>,
    target: Seq<char>,
    vis: Seq<Seq<char>>,
    p: Seq<Seq<char>>,
    k: int,
)
    requires
        0 <= k < p.len(),
        vis.contains(p[0]),
        closed_after(g, fm, target, Seq::empty(), vis),
        is_dep_chain(g, fm, p),
    ensures
        vis.contains(p[k]),
    decreases k,
{
    if k > 0 {
        lemma_chain_prefix_visited(g, fm, target, vis, p, k - 1);
        let j = k - 1;
        assert(!Seq::<Seq<char>>::empty().contains(p[j]));
        assert(deps_of(g, fm, p[j]).contains(p[j + 1]));
    }
}

/// Whether each cycle of `cycles` is a chain whose last name lists its first.
pub open spec fn cycles_ok(g: Map<Seq<char>, Vec<String>>, fm: Map<Seq<char>, String>, cycles: Seq<Seq<Seq<char>>>) -> bool {
    forall|j: int| 0 <= j < cycles.len() ==> {
        let c = #[trigger] cycles[j];
        &&& c.len() > 0
        &&& is_dep_chain(g, fm, c)
        &&& deps_of(g, fm, c.last()).contains(c[0])
    }
}

/// The first position of a name that occurs holds it.
proof fn lemma_first_pos(s: Seq<Seq<char>>, x: Seq<char>)
    requires
        s.contains(x),
    ensures
        0 <= first_pos(s, x) < s.len(),
        s[first_pos(s, x)] == x,
    decreases s.len(),
{
    if s[0] != x {
        let q = s.index_of(x);
        assert(s.drop_first()[q - 1] == x);
        lemma_first_pos(s.drop_first(), x);
    }
}

/// The cycle search only ever records cycles of dependencies.
proof fn lemma_cycle_node(
    g: Map<Seq<char>, Vec<String>>,
    fm: Map<Seq<char>, String>,
    pkg: Seq<char>,
    st: CycleState,
    budget: nat,
)
    requires
        is_dep_chain(g, fm, st.path),
        st.path.len() > 0 ==> deps_of(g, fm, st.path.last()).contains(pkg),
        cycles_ok(g, fm, st.cycles),
    ensures
        cycles_ok(g, fm, cycle_node(g, fm, pkg, st, budget).cycles),
        cycle_node(g, fm, pkg, st, budget).need is None ==> cycle_node(g, fm, pkg, st, budget).path == st.path,
    decreases budget, 0int, 0int,
{
    if st.need is Some {
    } else if st.path.contains(pkg) {
        lemma_first_pos(st.path, pkg);
        let a = first_pos(st.path, pkg);
        let c = st.path.subrange(a, st.path.len() as int);
        assert(c[0] == pkg);
        assert(c.last() == st.path.last());
        assert forall|k: int| 0 <= k < c.len() - 1 implies #[trigger] deps_of(g, fm, c[k]).contains(c[k + 1]) by {
            assert(c[k] == st.path[a + k] && c[k + 1] == st.path[a + k + 1]);
        }
        if !st.cycles.contains(c) {
            let cs = st.cycles.push(c);
            assert forall|j: int| 0 <= j < cs.len() implies {
                let c2 = #[trigger] cs[j];
                &&& c2.len() > 0
                &&& is_dep_chain(g, fm, c2)
                &&& deps_of(g, fm, c2.last()).contains(c2[0])
            } by {
                if j < st.cycles.len() {
                    assert(cs[j] == st.cycles[j]);
                }
            }
        }
    } else if st.visited.contains(pkg) || budget == 0 {
    } else {
        let st1 = CycleState { visited: st.visited.push(pkg), path: st.path.push(pkg), ..st };
        lemma_chain_push(g, fm, st.path, pkg);
        let n = resolved(fm, pkg);
        if g.contains_key(n) {
            let deps = views_of(g[n]@);
            assert(st1.path.last() == pkg);
            lemma_cycle_list(g, fm, deps, 0, st1, (budget - 1) as nat);
            let st2 = cycle_list(g, fm, deps, 0, st1, (budget - 1) as nat);
            if st2.need is None {
                assert(st2.path.drop_last() =~= st.path);
            }
        }
    }
}

/// The cycle search over dependencies only ever records cycles of dependencies.
proof fn lemma_cycle_list(
    g: Map<Seq<char>, Vec<String>>,
    fm: Map<Seq<char>, String>,
    deps: Seq<Seq<char>>,
    i: int,
    st: CycleState,
    budget: nat,
)
    requires
        is_dep_chain(g, fm, st.path),
        st.path.len() > 0,
        forall|j: int| 0 <= j < deps.len() ==> deps_of(g, fm, st.path.last()).contains(#[trigger] deps[j]),
        cycles_ok(g, fm, st.cycles),
    ensures
        cycles_ok(g, fm, cycle_list(g, fm, deps, i, st, budget).cycles),
        cycle_list(g, fm, deps, i, st, budget).need is None ==> cycle_list(g, fm, deps, i, st, budget).path == st.path,
    decreases budget, 1int, deps.len() - i,
{
    if i < 0 || i >= deps.len() || st.need is Some {
    } else {
        assert(deps_of(g, fm, st.path.last()).contains(deps[i]));
        lemma_cycle_node(g, fm, deps[i], st, budget);
        let st2 = cycle_node(g, fm, deps[i], st, budget);
        if st2.need is None {
            lemma_cycle_list(g, fm, deps, i + 1, st2, budget);
        }
    }
}

/// Every cycle found from `root` is a cycle of recorded dependencies: each package on it
/// lists the next, and the last lists the first.
pub proof fn law_cycles_follow_dependencies(t: Tracker, root: Seq<char>)
    ensures
        cycles_ok(t.graph(), t.files(), cycles_of(t, root).cycles),
{
    lemma_cycle_node(t.graph(), t.files(), root, cycle_start(), walk_names(t, root).len());
}

/// Whether each node of `nodes` is listed among the recorded dependencies of its parent
/// and lies at most 11 levels deep.
pub open spec fn nodes_ok(g: Map<Seq<char>, Vec<String>>, fm: Map<Seq<char>, String>, nodes: Seq<NodeModel>) -> bool {
    forall|j: int| 0 <= j < nodes.len() ==> {
        let n = #[trigger] nodes[j];
        &&& deps_of(g, fm, n.parent).contains(n.name)
        &&& 1 <= n.depth <= 11
    }
}

/// The tree walk only ever adds nodes that are dependencies of their parents.
proof fn lemma_tree_node(
    g: Map<Seq<char>, Vec<String>>,
    fm: Map<Seq<char>, String>,
    ps: Seq<PackageModel>,
    pkg: Seq<char>,
    depth: nat,
    st: TreeState,
)
    requires
        nodes_ok(g, fm, st.nodes),
    ensures
        nodes_ok(g, fm, tree_node(g, fm, ps, pkg, depth, st).nodes),
    decreases 11 - depth, 1int, 0int,
{
    if depth > 10 || st.need is Some || st.visited.contains(pkg) {
    } else {
        let n = resolved(fm, pkg);
        if g.contains_key(n) {
            let st1 = TreeState {
                visited: st.visited.push(pkg),
                max_depth: if depth > st.max_depth {
                    depth
                } else {
                    st.max_depth
                },
                ..st
            };
            lemma_tree_list(g, fm, ps, pkg, views_of(g[n]@), 0, depth, st1);
        }
    }
}

/// The tree walk over dependencies only ever adds nodes that are dependencies of their parents.
proof fn lemma_tree_list(
    g: Map<Seq<char>, Vec<String>>,
    fm: Map<Seq<char>, String>,
    ps: Seq<PackageModel>,
    parent: Seq<char>,
    deps: Seq<Seq<char>>,
    i: int,
    depth: nat,
    st: TreeState,
)
    requires
        nodes_ok(g, fm, st.nodes),
        forall|j: int| 0 <= j < deps.len() ==> deps_of(g, fm, parent).contains(#[trigger] deps[j]),
    ensures
        nodes_ok(g, fm, tree_list(g, fm, ps, parent, deps, i, depth, st).nodes),
    decreases 11 - depth, 0int, deps.len() - i,
{
    if i < 0 || i >= deps.len() || st.need is Some || depth > 10 {
    } else {
        let dep = deps[i];
        assert(deps_of(g, fm, parent).contains(dep));
        let node = dep_node(ps, dep, depth + 1, parent);
        let st1 = TreeState { nodes: st.nodes.push(node), ..st };
        assert forall|j: int| 0 <= j < st1.nodes.len() implies {
            let n = #[trigger] st1.nodes[j];
            &&& deps_of(g, fm, n.parent).contains(n.name)
            &&& 1 <= n.depth <= 11
        } by {
            if j < st.nodes.len() {
                assert(st1.nodes[j] == st.nodes[j]);
            }
        }
        let st2 = if depth < 10 {
            lemma_tree_node(g, fm, ps, dep, depth + 1, st1);
            tree_node(g, fm, ps, dep, depth + 1, st1)
        } else {
            st1
        };
        lemma_tree_list(g, fm, ps, parent, deps, i + 1, depth, st2);
    }
}

/// Every node of the dependency tree of `root` is listed among the recorded
/// dependencies of its parent, and lies at depth 1 to 11.
pub proof fn law_tree_follows_dependencies(t: Tracker, root: Seq<char>)
    ensures
        nodes_ok(t.graph(), t.files(), tree_of(t, root).nodes),
{
    lemma_tree_node(t.graph(), t.files(), t.installed(), root, 0, tree_start());
}

/// The printed dependency tree for `deps` at `indent` (at most `max_depth` levels), each
/// line after `prefix`: one line per dependency, marked as a cycle when it is on `path`,
/// followed by its own dependencies one level deeper. `Err` names a package whose
/// dependencies are needed.
pub open spec fn tree_call(
    g: Map<Seq<char>, Vec<String>>,
    fm: Map<Seq<char>, String>,
    deps: Seq<Seq<char>>,
    indent: nat,
    max_depth: nat,
    path: Seq<Seq<char>>,
    prefix: Seq<char>,
) -> Result<Seq<char>, Seq<char>>
    decreases max_depth - indent, 2int, 0int,
{
    if indent >= max_depth {
        Ok(repeat_char(' ', 2 * indent) + "... (depth limit reached)\n"@)
    } else {
        tree_loop(g, fm, deps, 0, indent, max_depth, path, prefix)
    }
}

/// The printed line for the dependency `dep`.
pub open spec fn line_text(prefix: Seq<char>, dep: Seq<char>, is_last: bool, cycle: bool) -> Seq<char> {
    prefix + (if is_last {
        "└── "@
    } else {
        "├── "@
    }) + dep + (if cycle {
        " [cycle]"@
    } else {
        Seq::empty()
    }) + "\n"@
}

/// The printed dependencies of the dependency `dep` (printed at `indent`), unless it is
/// on `path`.
pub open spec fn child_text(
    g: Map<Seq<char>, Vec<String>>,
    fm: Map<Seq<char>, String>,
    dep: Seq<char>,
    is_last: bool,
    indent: nat,
    max_depth: nat,
    path: Seq<Seq<char>>,
) -> Result<Seq<char>, Seq<char>>
    decreases max_depth - indent, 0int, 0int,
{
    if path.contains(dep) || indent >= max_depth {
        Ok(Seq::empty())
    } else {
        let n = resolved(fm, dep);
        if !g.contains_key(n) {
            Err(n)
        } else if g[n]@.len() == 0 {
            Ok(Seq::empty())
        } else {
            tree_call(
                g,
                fm,
                views_of(g[n]@),
                indent + 1,
                max_depth,
                path.push(dep),
                repeat_char(' ', 2 * (indent + 1)) + if is_last {
                    "    "@
                } else {
                    "│   "@
                },
            )
        }
    }
}

/// The printed lines for `deps[i..]` (see `tree_call`).
pub open spec fn tree_loop(
    g: Map<Seq<char>, Vec<String>>,
    fm: Map<Seq<char>, String>,
    deps: Seq<Seq<char>>,
    i: int,
    indent: nat,
    max_depth: nat,
    path: Seq<Seq<char>>,
    prefix: Seq<char>,
) -> Result<Seq<char>, Seq<char>>
    decreases max_depth - indent, 1int, deps.len() - i,
{
    if i < 0 || i >= deps.len() || indent >= max_depth {
        Ok(Seq::empty())
    } else {
        let dep = deps[i];
        let is_last = i == deps.len() - 1;
        let line = line_text(prefix, dep, is_last, path.contains(dep));
        match child_text(g, fm, dep, is_last, indent, max_depth, path) {
            Err(n) => Err(n),
            Ok(c) => match tree_loop(g, fm, deps, i + 1, indent, max_depth, path, prefix) {
                Err(n) => Err(n),
                Ok(rest) => Ok(line + c + rest),
            },
        }
    }
}

/// The printed dependency tree of `package`, down to `max_depth` levels.
pub open spec fn dependency_tree_text(t: Tracker, package: Seq<char>, max_depth: nat) -> Result<Seq<char>, Seq<char>> {
    let n = resolved(t.files(), package);
    if !t.graph().contains_key(n) {
        Err(n)
    } else {
        match tree_call(t.graph(), t.files(), views_of(t.graph()[n]@), 0, max_depth, Seq::empty(), Seq::empty()) {
            Err(m) => Err(m),
            Ok(body) => Ok("Dependency tree for '"@ + package + "' (max depth: "@ + decimal(max_depth) + "):\n"@ + body),
        }
    }
}

/// Appends the printed dependency tree for `deps` (see `tree_call`).
fn write_tree(
    t: &Tracker,
    deps: &Vec<String>,
    indent: usize,
    max_depth: usize,
    path: &Vec<String>,
    prefix: &String,
    out: &mut String,
) -> (r: Result<(), String>)
    requires
        t.wf(),
        indent <= max_depth,
        2 * max_depth <= usize::MAX,
    ensures
        match tree_call(t.graph(), t.files(), views_of(deps@), indent as nat, max_depth as nat, views_of(path@), prefix@) {
            Ok(txt) => r is Ok && final(out)@ == old(out)@ + txt,
            Err(n) => r matches Err(m) && m@ == n,
        },
    decreases max_depth - indent, 2int, 0int,
{
    if indent >= max_depth {
        push_repeat(out, ' ', 2 * indent);
        push_str(out, "... (depth limit reached)\n");
        return Ok(());
    }
    write_lines(t, deps, 0, indent, max_depth, path, prefix, out)
}

/// Appends the printed dependencies of `dep` (see `child_text`).
fn write_child(
    t: &Tracker,
    dep: &String,
    is_last: bool,
    indent: usize,
    max_depth: usize,
    path: &Vec<String>,
    out: &mut String,
) -> (r: Result<(), String>)
    requires
        t.wf(),
        indent < max_depth,
        2 * max_depth <= usize::MAX,
    ensures
        match child_text(t.graph(), t.files(), dep@, is_last, indent as nat, max_depth as nat, views_of(path@)) {
            Ok(txt) => r is Ok && final(out)@ == old(out)@ + txt,
            Err(n) => r matches Err(m) && m@ == n,
        },
    decreases max_depth - indent, 0int, 0int,
{
    if contains_name(path, dep.as_str()) {
        assert(old(out)@ + Seq::<char>::empty() =~= old(out)@);
        return Ok(());
    }
    match t.get_dependencies(dep.as_str()) {
        DepLookup::Unknown(n) => Err(n),
        DepLookup::Known(sub) => {
            if sub.len() == 0 {
                assert(old(out)@ + Seq::<char>::empty() =~= old(out)@);
                return Ok(());
            }
            let mut child_path = crate::models::clone_strings(path);
            child_path.push(dep.clone());
            let mut child_prefix = String::new();
            push_repeat(&mut child_prefix, ' ', 2 * (indent + 1));
            if is_last {
                push_str(&mut child_prefix, "    ");
            } else {
                push_str(&mut child_prefix, "│   ");
            }
            proof {
                assert(views_of(child_path@) =~= views_of(path@).push(dep@));
                assert(child_prefix@ =~= repeat_char(' ', 2 * (indent + 1) as nat) + if is_last {
                    "    "@
                } else {
                    "│   "@
                });
            }
            write_tree(t, &sub, indent + 1, max_depth, &child_path, &child_prefix, out)
        },
    }
}

/// Appends the printed lines for `deps[i..]` (see `tree_loop`).
#[verifier::rlimit(40)]
fn write_lines(
    t: &Tracker,
    deps: &Vec<String>,
    i: usize,
    indent: usize,
    max_depth: usize,
    path: &Vec<String>,
    prefix: &String,
    out: &mut String,
) -> (r: Result<(), String>)
    requires
        t.wf(),
        indent < max_depth,
        2 * max_depth <= usize::MAX,
    ensures
        match tree_loop(t.graph(), t.files(), views_of(deps@), i as int, indent as nat, max_depth as nat, views_of(path@), prefix@) {
            Ok(txt) => r is Ok && final(out)@ == old(out)@ + txt,
            Err(n) => r matches Err(m) && m@ == n,
        },
    decreases max_depth - indent, 1int, deps@.len() - i,
{
    if i >= deps.len() {
        assert(old(out)@ + Seq::<char>::empty() =~= old(out)@);
        return Ok(());
    }
    let ghost dv = views_of(deps@);
    let dep = &deps[i];
    assert(dv[i as int] == dep@);
    let is_last = i + 1 == deps.len();
    let on_path = contains_name(path, dep.as_str());
    let line = tree_line(prefix, dep, is_last, on_path);
    push_str(out, line.as_str());
    let ghost after_line = out@;
    match write_child(t, dep, is_last, indent, max_depth, path, out) {
        Err(n) => {
            return Err(n);
        },
        Ok(()) => {},
    }
    let ghost after_child = out@;
    let r = write_lines(t, deps, i + 1, indent, max_depth, path, prefix, out);
    proof {
        let lt = line_text(prefix@, dep@, is_last, views_of(path@).contains(dep@));
        match child_text(t.graph(), t.files(), dep@, is_last, indent as nat, max_depth as nat, views_of(path@)) {
            Ok(c) => {
                match tree_loop(t.graph(), t.files(), dv, i + 1, indent as nat, max_depth as nat, views_of(path@), prefix@) {
                    Ok(rest) => {
                        assert(out@ =~= old(out)@ + (lt + c + rest));
                    },
                    Err(n) => {},
                }
            },
            Err(n) => {},
        }
    }
    r
}

/// The printed line for the dependency `dep`.
fn tree_line(prefix: &String, dep: &String, is_last: bool, cycle: bool) -> (s: String)
    ensures
        s@ == line_text(prefix@, dep@, is_last, cycle),
{
    let mut s = String::new();
    push_str(&mut s, prefix.as_str());
    if is_last {
        push_str(&mut s, "└── ");
    } else {
        push_str(&mut s, "├── ");
    }
    push_str(&mut s, dep.as_str());
    if cycle {
        push_str(&mut s, " [cycle]");
    }
    push_str(&mut s, "\n");
    assert(s@ =~= line_text(prefix@, dep@, is_last, cycle));
    s
}

impl Tracker {
    /// The printed dependency tree of `package` down to `max_depth` levels: its
    /// dependencies, then theirs one level deeper, a dependency already on the way down
    /// marked as a cycle. Or the name whose dependencies are needed.
    pub fn print_dependency_tree(&self, package: &str, max_depth: usize) -> (r: Result<String, String>)
        requires
            self.wf(),
            2 * max_depth <= usize::MAX,
        ensures
            match dependency_tree_text(*self, package@, max_depth as nat) {
                Ok(txt) => r matches Ok(s) && s@ == txt,
                Err(n) => r matches Err(m) && m@ == n,
            },
    {
        let deps = match self.get_dependencies(package) {
            DepLookup::Known(d) => d,
            DepLookup::Unknown(n) => {
                return Err(n);
            },
        };
        let mut out = owned("Dependency tree for '");
        push_str(&mut out, package);
        push_str(&mut out, "' (max depth: ");
        push_u64(&mut out, max_depth as u64);
        push_str(&mut out, "):\n");
        let ghost head = out@;
        let path: Vec<String> = Vec::new();
        let prefix = String::new();
        assert(views_of(path@) =~= Seq::<Seq<char>>::empty());
        match write_tree(self, &deps, 0, max_depth, &path, &prefix, &mut out) {
            Ok(()) => Ok(out),
            Err(n) => Err(n),
        }
    }
}

} // verus!
