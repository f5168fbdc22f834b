//! The catalog of known versions, oldest first: the linear view of the
//! versions that remain to install from a given one, the transition graph
//! that the upgrade links define, and upgrade paths with the fewest hops.

use crate::graph::{
    add_edge, add_node, edge_step, empty_graph, graph_edges, graph_node_count, has_edge, is_walk,
    path_exists, reachable, shortest_path, TransitionGraph,
};
use std::collections::BTreeSet;
use vstd::prelude::*;

verus! {

/// A probe used to fingerprint an installed version: a relative file path and
/// the lowercase hex SHA-256 digest that its content must have.
pub struct Determinants {
    pub file: String,
    pub sha256: String,
}

/// A shortcut upgrade from a version to the version named `to`.
pub struct JumpingUpdate {
    pub to: String,
    pub link: String,
}

/// The outbound upgrade links of a version.
pub enum UpdateLink {
    /// An upgrade to the next version of the catalog, downloaded from this URL.
    Next(String),
    /// Upgrades to named versions, each with its own URL.
    Jumps(Vec<JumpingUpdate>),
}

/// One version of the catalog. A version with no link is a terminal one.
pub struct Version {
    pub name: String,
    pub update_link: Option<UpdateLink>,
    pub determinants: Vec<Determinants>,
}

/// Index of the first version at or after `from` that has no outbound link,
/// or the length of `vs` when every one of them has a link.
pub open spec fn first_terminal_from(vs: Seq<Version>, from: int) -> int
    decreases vs.len() - from,
{
    if from >= vs.len() {
        vs.len() as int
    } else if vs[from].update_link is None {
        from
    } else {
        first_terminal_from(vs, from + 1)
    }
}

proof fn lemma_first_terminal_bounds(vs: Seq<Version>, from: int)
    requires
        0 <= from <= vs.len(),
    ensures
        from <= first_terminal_from(vs, from) <= vs.len(),
        forall|i: int| from <= i < first_terminal_from(vs, from) ==> vs[i].update_link is Some,
        first_terminal_from(vs, from) < vs.len() ==> vs[first_terminal_from(vs, from)].update_link is None,
    decreases vs.len() - from,
{
    if from < vs.len() && vs[from].update_link is Some {
        lemma_first_terminal_bounds(vs, from + 1);
    }
}

/// Index of the last version of `vs` named `name`, or -1 when none is.
pub open spec fn last_named(vs: Seq<Version>, name: Seq<char>) -> int
    decreases vs.len(),
{
    if vs.len() == 0 {
        -1
    } else if vs[vs.len() - 1].name@ == name {
        vs.len() - 1
    } else {
        last_named(vs.drop_last(), name)
    }
}

/// Version `i` links to version `j`: by its plain link when `j` follows it,
/// or by a jump that names `j` (the last version of that name).
pub open spec fn link_between(vs: Seq<Version>, i: int, j: int) -> bool {
    &&& 0 <= i < vs.len()
    &&& 0 <= j < vs.len()
    &&& match vs[i].update_link {
        Some(UpdateLink::Next(_)) => j == i + 1,
        Some(UpdateLink::Jumps(js)) => exists|k: int|
            0 <= k < js@.len() && last_named(vs, #[trigger] js@[k].to@) == j,
        None => false,
    }
}

/// The upgrade steps of the catalog `vs`.
pub open spec fn catalog_step(vs: Seq<Version>) -> spec_fn(int, int) -> bool {
    |i: int, j: int| link_between(vs, i, j)
}

/// Number of edges that the links of `vs` give.
pub open spec fn link_count(vs: Seq<Version>) -> nat
    decreases vs.len(),
{
    if vs.len() == 0 {
        0
    } else {
        link_count(vs.drop_last()) + links_of(vs[vs.len() - 1])
    }
}

/// Number of outbound links of one version.
pub open spec fn links_of(v: Version) -> nat {
    match v.update_link {
        Some(UpdateLink::Next(_)) => 1,
        Some(UpdateLink::Jumps(js)) => js@.len(),
        None => 0,
    }
}

/// Index of the first jump of `js` at or after `k` whose target is `name`,
/// or the length of `js` when none is.
pub open spec fn first_jump_from(js: Seq<JumpingUpdate>, name: Seq<char>, k: int) -> int
    decreases js.len() - k,
{
    if k >= js.len() {
        js.len() as int
    } else if js[k].to@ == name {
        k
    } else {
        first_jump_from(js, name, k + 1)
    }
}

/// The download URL of the step from version `i` to version `j`: its plain
/// link when `j` follows `i`, else the first of its jumps whose target has the
/// name of `j`.
pub open spec fn step_url(vs: Seq<Version>, i: int, j: int) -> Option<Seq<char>> {
    match vs[i].update_link {
        Some(UpdateLink::Next(l)) => if j == i + 1 {
            Some(l@)
        } else {
            None
        },
        Some(UpdateLink::Jumps(js)) => if first_jump_from(js@, vs[j].name@, 0) < js@.len() {
            Some(js@[first_jump_from(js@, vs[j].name@, 0)].link@)
        } else {
            None
        },
        None => None,
    }
}

/// The view of an optional string.
pub open spec fn opt_view(o: Option<String>) -> Option<Seq<char>> {
    match o {
        Some(s) => Some(s@),
        None => None,
    }
}

/// The version indices along an upgrade path.
pub open spec fn path_indices(p: Seq<VersionPath>) -> Seq<usize> {
    p.map_values(|x: VersionPath| x.index)
}

/// `p` follows links of `vs` from `from` to `to`, each step carrying the URL
/// of its link and the last step none.
pub open spec fn is_upgrade_path(vs: Seq<Version>, p: Seq<VersionPath>, from: int, to: int) -> bool {
    &&& is_walk(catalog_step(vs), path_indices(p), from, to)
    &&& forall|k: int| 0 <= k < p.len() - 1 ==> #[trigger] opt_view(p[k].update_link) == step_url(vs, p[k].index as int, p[k + 1].index as int)
    &&& forall|k: int| 0 <= k < p.len() - 1 ==> #[trigger] p[k].update_link is Some
    &&& p[p.len() - 1].update_link is None
}

proof fn lemma_last_named(vs: Seq<Version>, name: Seq<char>)
    ensures
        -1 <= last_named(vs, name) < vs.len(),
        last_named(vs, name) >= 0 ==> vs[last_named(vs, name)].name@ == name,
    decreases vs.len(),
{
    if vs.len() > 0 && vs[vs.len() - 1].name@ != name {
        lemma_last_named(vs.drop_last(), name);
    }
}

proof fn lemma_link_count_prefix(vs: Seq<Version>, i: int)
    requires
        0 <= i <= vs.len(),
    ensures
        link_count(vs.take(i)) <= link_count(vs),
        i < vs.len() ==> link_count(vs.take(i + 1)) == link_count(vs.take(i)) + links_of(vs[i]),
    decreases vs.len() - i,
{
    if i < vs.len() {
        assert(vs.take(i + 1).drop_last() =~= vs.take(i));
        lemma_link_count_prefix(vs, i + 1);
    } else {
        assert(vs.take(i) =~= vs);
    }
}

proof fn lemma_first_jump(js: Seq<JumpingUpdate>, name: Seq<char>, k: int, m: int)
    requires
        0 <= k <= m < js.len(),
        js[m].to@ == name,
    ensures
        k <= first_jump_from(js, name, k) <= m,
        js[first_jump_from(js, name, k)].to@ == name,
    decreases js.len() - k,
{
    if js[k].to@ != name {
        lemma_first_jump(js, name, k + 1, m);
    }
}

/// Index of the last version named `name`, if any.
fn find_last_named(versions: &Vec<Version>, name: &String) -> (r: Option<usize>)
    ensures
        match r {
            Some(j) => last_named(versions@, name@) == j,
            None => last_named(versions@, name@) == -1,
        },
{
    let mut i: usize = versions.len();
    assert(versions@.take(i as int) =~= versions@);
    while i > 0
        invariant
            i <= versions@.len(),
            last_named(versions@, name@) == last_named(versions@.take(i as int), name@),
        decreases i,
    {
        assert(versions@.take(i as int).drop_last() =~= versions@.take(i - 1));
        if versions[i - 1].name == *name {
            return Some(i - 1);
        }
        i = i - 1;
    }
    None
}

/// The catalog of versions, oldest first, with the transition graph that
/// was last built from it.
pub struct Source {
    pub versions: Vec<Version>,
    pub digraph: Option<TransitionGraph>,
}

/// One step of an upgrade path: the version at `index`, and the URL that
/// leads from it to the next step (none on the last step).
pub struct VersionPath {
    pub index: usize,
    pub update_link: Option<String>,
}

/// Why no upgrade path was computed.
pub enum VersionPathError {
    /// No chain of links leads from the first version to the second.
    Unreachable,
}

impl Source {
    /// The versions whose links an upgrade from the installed version
    /// `current` follows: `current` itself and the versions after it, up to,
    /// not including, the first one from `current` on that has no link (the
    /// version the upgrade ends on). Empty when `current` is past the end or
    /// has no link itself.
    pub fn get_versions_to_install(&self, current: usize) -> (r: &[Version])
        ensures
            current >= self.versions@.len() ==> r@.len() == 0,
            current < self.versions@.len() ==> r@ == self.versions@.subrange(
                current as int,
                first_terminal_from(self.versions@, current as int),
            ),
    {
        if current >= self.versions.len() {
            return &self.versions.as_slice()[0..0];
        }
        let mut end: usize = current;
        while end < self.versions.len() && self.versions[end].update_link.is_some()
            invariant
                current <= end <= self.versions@.len(),
                first_terminal_from(self.versions@, current as int) == first_terminal_from(self.versions@, end as int),
            decreases self.versions@.len() - end,
        {
            end = end + 1;
        }
        &self.versions.as_slice()[current..end]
    }

    /// A catalog of `versions`, with no transition graph built yet.
    pub fn new(versions: Vec<Version>) -> (r: Source)
        ensures
            r.versions == versions,
            r.digraph is None,
    {
        Source { versions, digraph: None }
    }

    /// `g` is the transition graph of this catalog: one node per version,
    /// unit weights, and an edge exactly where a link leads.
    pub open spec fn graph_of(&self, g: TransitionGraph) -> bool {
        &&& graph_node_count(g) == self.versions@.len()
        &&& forall|k: int| 0 <= k < graph_edges(g).len() ==> #[trigger] graph_edges(g)[k].2 == 1
        &&& forall|a: int, b: int| #[trigger] has_edge(graph_edges(g), a, b) <==> link_between(self.versions@, a, b)
    }

    /// The sizes for which the transition graph can be built.
    pub open spec fn graph_fits(&self) -> bool {
        &&& self.versions@.len() < u32::MAX
        &&& link_count(self.versions@) < u32::MAX
    }

    /// Builds the transition graph from the links, keeps it, and returns it.
    pub fn create_digraph(&mut self) -> (r: &TransitionGraph)
        requires
            old(self).graph_fits(),
        ensures
            final(self).versions == old(self).versions,
            final(self).digraph == Some(*r),
            final(self).graph_of(*r),
    {
        let g = self.build_graph();
        self.digraph = Some(g);
        self.digraph.as_ref().unwrap()
    }

    fn build_graph(&self) -> (g: TransitionGraph)
        requires
            self.graph_fits(),
        ensures
            self.graph_of(g),
    {
        let ghost vs = self.versions@;
        let n = self.versions.len();
        let mut g = empty_graph();
        let mut i: usize = 0;
        while i < n
            invariant
                n == vs.len(),
                vs == self.versions@,
                self.graph_fits(),
                i <= n,
                graph_node_count(g) == i,
                graph_edges(g).len() == 0,
            decreases n - i,
        {
            add_node(&mut g);
            i = i + 1;
        }
        let mut i: usize = 0;
        while i < n
            invariant
                n == vs.len(),
                vs == self.versions@,
                self.graph_fits(),
                i <= n,
                graph_node_count(g) == n,
                graph_edges(g).len() <= link_count(vs.take(i as int)),
                forall|k: int| 0 <= k < graph_edges(g).len() ==> #[trigger] graph_edges(g)[k].2 == 1,
                forall|a: int, b: int| #[trigger] has_edge(graph_edges(g), a, b) <==> (a < i && link_between(vs, a, b)),
            decreases n - i,
        {
            proof {
                lemma_link_count_prefix(vs, i as int);
                lemma_link_count_prefix(vs, i + 1);
            }
            let ghost before = graph_edges(g);
            match &self.versions[i].update_link {
                Some(UpdateLink::Next(_)) => {
                    if i + 1 < n {
                        add_edge(&mut g, i, i + 1, 1);
                    }
                    assert forall|a: int, b: int| #[trigger] has_edge(graph_edges(g), a, b) <==> (a < i + 1 && link_between(vs, a, b)) by {
                        if has_edge(graph_edges(g), a, b) {
                            let k = choose|k: int| 0 <= k < graph_edges(g).len() && graph_edges(g)[k].0 == a && graph_edges(g)[k].1 == b;
                            if k < before.len() {
                                assert(has_edge(before, a, b));
                            }
                        }
                        if a < i && link_between(vs, a, b) {
                            assert(has_edge(before, a, b));
                            let k = choose|k: int| 0 <= k < before.len() && before[k].0 == a && before[k].1 == b;
                            assert(graph_edges(g)[k] == before[k]);
                        }
                        if a == i && link_between(vs, a, b) {
                            assert(graph_edges(g)[before.len() as int] == (i, (i + 1) as usize, 1usize));
                        }
                    }
                },
                Some(UpdateLink::Jumps(js)) => {
                    let mut k: usize = 0;
                    while k < js.len()
                        invariant
                            n == vs.len(),
                            vs == self.versions@,
                            i < n,
                            vs[i as int].update_link == Some(UpdateLink::Jumps(*js)),
                            k <= js@.len(),
                            graph_node_count(g) == n,
                            link_count(vs.take(i + 1)) == link_count(vs.take(i as int)) + js@.len(),
                            link_count(vs.take(i + 1)) <= link_count(vs) < u32::MAX,
                            before.len() <= link_count(vs.take(i as int)),
                            before.len() <= graph_edges(g).len() <= before.len() + k,
                            forall|m: int| 0 <= m < before.len() ==> graph_edges(g)[m] == before[m],
                            forall|m: int| 0 <= m < graph_edges(g).len() ==> #[trigger] graph_edges(g)[m].2 == 1,
                            forall|a: int, b: int| #[trigger] has_edge(before, a, b) <==> (a < i && link_between(vs, a, b)),
                            forall|b: int| #[trigger] has_edge(graph_edges(g), i as int, b) <==> (0 <= b && exists|m: int|
                                0 <= m < k && last_named(vs, #[trigger] js@[m].to@) == b),
                            forall|a: int, b: int| a != i ==> (#[trigger] has_edge(graph_edges(g), a, b) <==> has_edge(before, a, b)),
                        decreases js@.len() - k,
                    {
                        let ghost mid = graph_edges(g);
                        let target = find_last_named(&self.versions, &js[k].to);
                        proof { lemma_last_named(vs, js@[k as int].to@); }
                        match target {
                            Some(j) => {
                                add_edge(&mut g, i, j, 1);
                                assert(graph_edges(g) == mid.push((i, j, 1usize)));
                            },
                            None => {},
                        }
                        assert forall|b: int| #[trigger] has_edge(graph_edges(g), i as int, b) <==> (0 <= b && exists|m: int|
                            0 <= m < k + 1 && last_named(vs, #[trigger] js@[m].to@) == b) by {
                            if has_edge(graph_edges(g), i as int, b) {
                                let e = choose|e: int| 0 <= e < graph_edges(g).len() && graph_edges(g)[e].0 == i && graph_edges(g)[e].1 == b;
                                if e < mid.len() {
                                    assert(mid[e] == graph_edges(g)[e]);
                                    assert(has_edge(mid, i as int, b));
                                    let m = choose|m: int| 0 <= m < k && last_named(vs, #[trigger] js@[m].to@) == b;
                                    assert(0 <= m < k + 1 && last_named(vs, js@[m].to@) == b);
                                } else {
                                    assert(last_named(vs, js@[k as int].to@) == b);
                                }
                            }
                            if 0 <= b && exists|m: int| 0 <= m < k + 1 && last_named(vs, #[trigger] js@[m].to@) == b {
                                let m = choose|m: int| 0 <= m < k + 1 && last_named(vs, #[trigger] js@[m].to@) == b;
                                if m < k {
                                    assert(has_edge(mid, i as int, b));
                                    let e = choose|e: int| 0 <= e < mid.len() && mid[e].0 == i && mid[e].1 == b;
                                    assert(graph_edges(g)[e] == mid[e]);
                                } else {
                                    assert(graph_edges(g)[mid.len() as int] == (i, b as usize, 1usize));
                                }
                            }
                        }
                        assert forall|a: int, b: int| a != i implies (#[trigger] has_edge(graph_edges(g), a, b) <==> has_edge(before, a, b)) by {
                            if has_edge(graph_edges(g), a, b) {
                                let e = choose|e: int| 0 <= e < graph_edges(g).len() && graph_edges(g)[e].0 == a && graph_edges(g)[e].1 == b;
                                assert(e < mid.len());
                                assert(mid[e] == graph_edges(g)[e]);
                                assert(has_edge(mid, a, b));
                            }
                            if has_edge(before, a, b) {
                                let e = choose|e: int| 0 <= e < before.len() && before[e].0 == a && before[e].1 == b;
                                assert(graph_edges(g)[e] == before[e]);
                            }
                        }
                        k = k + 1;
                    }
                    assert forall|a: int, b: int| #[trigger] has_edge(graph_edges(g), a, b) <==> (a < i + 1 && link_between(vs, a, b)) by {
                        if a == i {
                            assert(has_edge(graph_edges(g), i as int, b) == has_edge(graph_edges(g), a, b));
                            if exists|m: int| 0 <= m < js@.len() && last_named(vs, #[trigger] js@[m].to@) == b {
                                let m = choose|m: int| 0 <= m < js@.len() && last_named(vs, #[trigger] js@[m].to@) == b;
                                lemma_last_named(vs, js@[m].to@);
                            }
                        } else {
                            assert(has_edge(graph_edges(g), a, b) <==> has_edge(before, a, b));
                        }
                    }
                },
                None => {
                    assert forall|a: int, b: int| #[trigger] has_edge(graph_edges(g), a, b) <==> (a < i + 1 && link_between(vs, a, b)) by {
                        assert(graph_edges(g) == before);
                    }
                },
            }
            i = i + 1;
        }
        g
    }
}


fn find_jump(js: &Vec<JumpingUpdate>, name: &String) -> (r: usize)
    ensures
        r == first_jump_from(js@, name@, 0),
{
    let mut k: usize = 0;
    while k < js.len()
        invariant
            k <= js@.len(),
            first_jump_from(js@, name@, 0) == first_jump_from(js@, name@, k as int),
        decreases js@.len() - k,
    {
        if js[k].to == *name {
            return k;
        }
        k = k + 1;
    }
    k
}

/// The versions `old` and `new` of one upgrade hop, and the URL of the delta
/// archive that leads from the first to the second, if the catalog has one.
pub struct VersionTransition {
    pub old: usize,
    pub new: usize,
    pub update_link: Option<String>,
}

impl Source {
    /// The URL of the step from version `i` to version `j`.
    pub fn step_link(&self, i: usize, j: usize) -> (r: Option<String>)
        requires
            i < self.versions@.len(),
            j < self.versions@.len(),
        ensures
            opt_view(r) == step_url(self.versions@, i as int, j as int),
    {
        match &self.versions[i].update_link {
            Some(UpdateLink::Next(l)) => {
                if j > 0 && j - 1 == i {
                    Some(l.clone())
                } else {
                    None
                }
            },
            Some(UpdateLink::Jumps(js)) => {
                let k = find_jump(js, &self.versions[j].name);
                if k < js.len() {
                    Some(js[k].link.clone())
                } else {
                    None
                }
            },
            None => None,
        }
    }

    /// A path with the fewest hops from version `from` to version `to`
    /// through the transition graph, each step with the URL of its link.
    pub fn get_path(&mut self, from: usize, to: usize) -> (r: Result<Vec<VersionPath>, VersionPathError>)
        requires
            old(self).graph_fits(),
            from < old(self).versions@.len(),
            to < old(self).versions@.len(),
        ensures
            final(self).versions == old(self).versions,
            r is Err <==> !reachable(catalog_step(old(self).versions@), from as int, to as int),
            r matches Ok(p) ==> {
                &&& is_upgrade_path(old(self).versions@, p@, from as int, to as int)
                &&& forall|q: Seq<usize>| is_walk(catalog_step(old(self).versions@), q, from as int, to as int)
                    ==> p@.len() <= q.len()
            },
    {
        let ghost vs = self.versions@;
        let g = self.create_digraph();
        proof {
            assert(edge_step(graph_edges(*g)) =~= catalog_step(vs));
        }
        let found = shortest_path(g, from, to);
        let path = match found {
            None => {
                return Err(VersionPathError::Unreachable);
            },
            Some((_, path)) => path,
        };
        let mut result: Vec<VersionPath> = Vec::new();
        let mut k: usize = 0;
        while k + 1 < path.len()
            invariant
                vs == self.versions@,
                is_walk(catalog_step(vs), path@, from as int, to as int),
                k < path@.len(),
                result@.len() == k,
                forall|m: int| 0 <= m < k ==> #[trigger] result@[m].index == path@[m],
                forall|m: int| 0 <= m < k ==> #[trigger] opt_view(result@[m].update_link) == step_url(vs, path@[m] as int, path@[m + 1] as int),
                forall|m: int| 0 <= m < k ==> #[trigger] result@[m].update_link is Some,
            decreases path@.len() - k,
        {
            let old_index = path[k];
            let new_index = path[k + 1];
            assert(catalog_step(vs)(path@[k as int] as int, path@[k + 1] as int));
            proof {
                match vs[old_index as int].update_link {
                    Some(UpdateLink::Jumps(js)) => {
                        let m = choose|m: int| 0 <= m < js@.len() && last_named(vs, #[trigger] js@[m].to@) == new_index;
                        lemma_last_named(vs, js@[m].to@);
                        lemma_first_jump(js@, vs[new_index as int].name@, 0, m);
                    },
                    _ => {},
                }
            }
            let link = self.step_link(old_index, new_index);
            result.push(VersionPath { index: old_index, update_link: link });
            k = k + 1;
        }
        result.push(VersionPath { index: path[k], update_link: None });
        proof {
            assert(path_indices(result@) =~= path@);
        }
        Ok(result)
    }

    /// The versions that some chain of links reaches from `current`, other
    /// than `current` itself.
    pub fn get_reachable_versions(&mut self, current: usize) -> (r: BTreeSet<usize>)
        requires
            old(self).graph_fits(),
            current < old(self).versions@.len(),
        ensures
            final(self).versions == old(self).versions,
            r@ == Set::new(|j: usize| j < old(self).versions@.len() && j != current
                && reachable(catalog_step(old(self).versions@), current as int, j as int)),
    {
        broadcast use vstd::laws_cmp::group_laws_cmp;
        let ghost vs = self.versions@;
        let n = self.versions.len();
        let g = self.create_digraph();
        proof {
            assert(edge_step(graph_edges(*g)) =~= catalog_step(vs));
        }
        let mut set: BTreeSet<usize> = BTreeSet::new();
        let mut j: usize = 0;
        while j < n
            invariant
                n == vs.len(),
                graph_node_count(*g) == n,
                edge_step(graph_edges(*g)) == catalog_step(vs),
                current < n,
                j <= n,
                set@ == Set::new(|i: usize| i < j && i != current && reachable(catalog_step(vs), current as int, i as int)),
            decreases n - j,
        {
            if j != current && path_exists(g, current, j) {
                set.insert(j);
            }
            assert(set@ =~= Set::new(|i: usize| i < j + 1 && i != current && reachable(catalog_step(vs), current as int, i as int)));
            j = j + 1;
        }
        set
    }

    /// The hops from `current` along plain successors up to the first
    /// version without a link (included), or up to the last version.
    pub fn get_transitions(&self, current: usize) -> (r: Vec<VersionTransition>)
        ensures
            r@.len() == if current < self.versions@.len() {
                min_int(first_terminal_from(self.versions@, current as int), self.versions@.len() - 1) - current
            } else {
                0
            },
            forall|k: int| 0 <= k < r@.len() ==> #[trigger] linear_hop(self.versions@, r@[k], current + k),
    {
        let mut out: Vec<VersionTransition> = Vec::new();
        let n = self.versions.len();
        if current >= n {
            return out;
        }
        proof { lemma_first_terminal_bounds(self.versions@, current as int); }
        let mut i: usize = current;
        while i + 1 < n && self.versions[i].update_link.is_some()
            invariant
                n == self.versions@.len(),
                current <= i < n,
                first_terminal_from(self.versions@, current as int) == first_terminal_from(self.versions@, i as int),
                out@.len() == i - current,
                forall|k: int| 0 <= k < out@.len() ==> #[trigger] linear_hop(self.versions@, out@[k], current + k),
            decreases n - i,
        {
            let link = self.step_link(i, i + 1);
            out.push(VersionTransition { old: i, new: i + 1, update_link: link });
            i = i + 1;
        }
        proof { lemma_first_terminal_bounds(self.versions@, i as int); }
        out
    }
}

/// `t` is the hop from version `i` to its successor, with the URL of that step.
pub open spec fn linear_hop(vs: Seq<Version>, t: VersionTransition, i: int) -> bool {
    &&& t.old == i
    &&& t.new == i + 1
    &&& opt_view(t.update_link) == step_url(vs, i, i + 1)
}

/// A direct link wins over any longer chain: when version `from` links to a
/// different version `to` (by a jump that skips intermediate versions, or by
/// its plain link), an upgrade path from `from` to `to` with the fewest hops
/// is that single link, carrying its URL.
pub proof fn lemma_direct_link_is_shortest(vs: Seq<Version>, p: Seq<VersionPath>, from: int, to: int)
    requires
        from != to,
        link_between(vs, from, to),
        is_upgrade_path(vs, p, from, to),
        forall|q: Seq<usize>| is_walk(catalog_step(vs), q, from, to) ==> p.len() <= q.len(),
    ensures
        p.len() == 2,
        p[0].index == from,
        p[1].index == to,
        opt_view(p[0].update_link) == step_url(vs, from, to),
{
    let q = seq![from as usize, to as usize];
    assert(is_walk(catalog_step(vs), q, from, to)) by {
        assert(catalog_step(vs)(q[0] as int, q[1] as int));
    }
    assert(path_indices(p)[0] == p[0].index);
    assert(path_indices(p)[p.len() - 1] == p[p.len() - 1].index);
    assert(p.len() >= 2);
    assert(path_indices(p)[1] == p[1].index);
}

/// The smaller of two integers.
pub open spec fn min_int(a: int, b: int) -> int {
    if a <= b {
        a
    } else {
        b
    }
}

} // verus!
