//! Step 1: builds the dependency graph from the resolver's metadata (the
//! packages `cargo metadata` lists and the edges of its resolve graph).

use vstd::prelude::*;
use crate::graph::{DepGraph, graph_nodes, graph_edges, graph_new, graph_add_node, graph_add_edge, graph_node, graph_set_node};
use crate::models::{PackageId, PackageNode, DependencyKind};

verus! {

/// A package of the metadata: its opaque resolver id, name and version.
#[derive(Debug, Clone)]
pub struct MetadataPackage {
    pub id: String,
    pub name: String,
    pub version: String,
}

/// The kind of a dependency edge as the resolver reports it; kinds it may
/// add in the future are `Unknown`.
#[derive(Debug, Clone, Copy, PartialEq, Eq, Structural)]
pub enum MetadataDepKind {
    Normal,
    Development,
    Build,
    Unknown,
}

/// One dependency of a resolve node: the resolver id of the package
/// depended on, and the kinds under which it is depended on.
#[derive(Debug, Clone)]
pub struct MetadataDep {
    pub pkg: String,
    pub dep_kinds: Vec<MetadataDepKind>,
}

/// A node of the resolve graph: a package id and its dependencies.
#[derive(Debug, Clone)]
pub struct ResolveNode {
    pub id: String,
    pub deps: Vec<MetadataDep>,
}

/// What the graph is built from: every package, and the resolve graph if
/// the resolver produced one.
#[derive(Debug, Clone)]
pub struct CargoMetadata {
    pub packages: Vec<MetadataPackage>,
    pub resolve: Option<Vec<ResolveNode>>,
}

/// Index of the last package with resolver id `id` (later packages shadow
/// earlier ones with the same id).
pub open spec fn package_index(pkgs: Seq<MetadataPackage>, id: Seq<char>) -> Option<nat>
    decreases pkgs.len(),
{
    if pkgs.len() == 0 {
        None
    } else if pkgs.last().id@ == id {
        Some((pkgs.len() - 1) as nat)
    } else {
        package_index(pkgs.drop_last(), id)
    }
}

/// The kind recorded for a dependency: its first listed kind, `Normal` when
/// none is listed or the kind is unknown.
pub open spec fn edge_kind(d: MetadataDep) -> DependencyKind {
    if d.dep_kinds@.len() == 0 {
        DependencyKind::Normal
    } else {
        match d.dep_kinds@[0] {
            MetadataDepKind::Development => DependencyKind::Dev,
            MetadataDepKind::Build => DependencyKind::Build,
            _ => DependencyKind::Normal,
        }
    }
}

/// The edges (source, target, kind) contributed by the dependencies `deps`
/// of the package at index `from`, skipping dependencies whose package is
/// not listed.
pub open spec fn dep_edges(pkgs: Seq<MetadataPackage>, from: nat, deps: Seq<MetadataDep>) -> Seq<(usize, usize, DependencyKind)>
    decreases deps.len(),
{
    if deps.len() == 0 {
        Seq::empty()
    } else {
        let d = deps.last();
        let prev = dep_edges(pkgs, from, deps.drop_last());
        match package_index(pkgs, d.pkg@) {
            Some(t) => prev.push((from as usize, t as usize, edge_kind(d))),
            None => prev,
        }
    }
}

/// All edges of the resolve graph in order, skipping nodes and dependencies
/// whose package is not listed.
pub open spec fn resolve_edges(pkgs: Seq<MetadataPackage>, nodes: Seq<ResolveNode>) -> Seq<(usize, usize, DependencyKind)>
    decreases nodes.len(),
{
    if nodes.len() == 0 {
        Seq::empty()
    } else {
        let n = nodes.last();
        let prev = resolve_edges(pkgs, nodes.drop_last());
        match package_index(pkgs, n.id@) {
            Some(f) => prev + dep_edges(pkgs, f, n.deps@),
            None => prev,
        }
    }
}

/// All edges of the metadata (none without a resolve graph).
pub open spec fn metadata_edges(m: CargoMetadata) -> Seq<(usize, usize, DependencyKind)> {
    match m.resolve {
        Some(nodes) => resolve_edges(m.packages@, nodes@),
        None => Seq::empty(),
    }
}

/// The kind of the last edge into node `j`, `Normal` when none enters it.
pub open spec fn final_kind(edges: Seq<(usize, usize, DependencyKind)>, j: usize) -> DependencyKind
    decreases edges.len(),
{
    if edges.len() == 0 {
        DependencyKind::Normal
    } else if edges.last().1 == j {
        edges.last().2
    } else {
        final_kind(edges.drop_last(), j)
    }
}

/// The graph node for package `j` after the edges `edges` were added.
pub open spec fn package_node(pkgs: Seq<MetadataPackage>, edges: Seq<(usize, usize, DependencyKind)>, j: int) -> PackageNode {
    PackageNode {
        id: PackageId { name: pkgs[j].name, version: pkgs[j].version },
        dependency_kind: final_kind(edges, j as usize),
        source_used: false,
    }
}

pub open spec fn edge_pairs(edges: Seq<(usize, usize, DependencyKind)>) -> Seq<(usize, usize)> {
    edges.map_values(|e: (usize, usize, DependencyKind)| (e.0, e.1))
}

/// Graph state after the first `k` edges of `edges` were applied.
spec fn graph_after(g: DepGraph, pkgs: Seq<MetadataPackage>, edges: Seq<(usize, usize, DependencyKind)>) -> bool {
    &&& graph_nodes(g).len() == pkgs.len()
    &&& graph_edges(g) == edge_pairs(edges)
    &&& forall|j: int| 0 <= j < pkgs.len() ==> #[trigger] graph_nodes(g)[j] == package_node(pkgs, edges, j)
    &&& forall|e: int| 0 <= e < edges.len() ==> (#[trigger] edges[e]).0 < pkgs.len() && edges[e].1 < pkgs.len()
}

fn find_package(pkgs: &Vec<MetadataPackage>, id: &String) -> (res: Option<usize>)
    ensures
        res matches Some(i) ==> package_index(pkgs@, id@) == Some(i as nat) && i < pkgs@.len(),
        res is None ==> package_index(pkgs@, id@) is None,
{
    let mut i = pkgs.len();
    assert(pkgs@.take(i as int) =~= pkgs@);
    while i > 0
        invariant
            i <= pkgs@.len(),
            package_index(pkgs@, id@) == package_index(pkgs@.take(i as int), id@),
        decreases i,
    {
        assert(pkgs@.take(i as int).drop_last() =~= pkgs@.take(i - 1));
        if pkgs[i - 1].id == *id {
            return Some(i - 1);
        }
        i = i - 1;
    }
    None
}

fn kind_of_dep(d: &MetadataDep) -> (res: DependencyKind)
    ensures
        res == edge_kind(*d),
{
    if d.dep_kinds.len() == 0 {
        DependencyKind::Normal
    } else {
        match d.dep_kinds[0] {
            MetadataDepKind::Development => DependencyKind::Dev,
            MetadataDepKind::Build => DependencyKind::Build,
            _ => DependencyKind::Normal,
        }
    }
}


proof fn lemma_dep_edges_prefix(pkgs: Seq<MetadataPackage>, from: nat, deps: Seq<MetadataDep>, d: int)
    requires
        0 <= d <= deps.len(),
    ensures
        dep_edges(pkgs, from, deps.take(d)).len() <= dep_edges(pkgs, from, deps).len(),
    decreases deps.len(),
{
    if d < deps.len() {
        assert(deps.drop_last().take(d) =~= deps.take(d));
        lemma_dep_edges_prefix(pkgs, from, deps.drop_last(), d);
    } else {
        assert(deps.take(d) =~= deps);
    }
}

proof fn lemma_resolve_edges_prefix(pkgs: Seq<MetadataPackage>, nodes: Seq<ResolveNode>, k: int)
    requires
        0 <= k <= nodes.len(),
    ensures
        resolve_edges(pkgs, nodes.take(k)).len() <= resolve_edges(pkgs, nodes).len(),
    decreases nodes.len(),
{
    if k < nodes.len() {
        assert(nodes.drop_last().take(k) =~= nodes.take(k));
        lemma_resolve_edges_prefix(pkgs, nodes.drop_last(), k);
    } else {
        assert(nodes.take(k) =~= nodes);
    }
}

proof fn lemma_apply_edge(
    g0: DepGraph,
    g1: DepGraph,
    g2: DepGraph,
    pkgs: Seq<MetadataPackage>,
    edges: Seq<(usize, usize, DependencyKind)>,
    f: usize,
    t: usize,
    kind: DependencyKind,
)
    requires
        graph_after(g0, pkgs, edges),
        f < pkgs.len(),
        t < pkgs.len(),
        graph_nodes(g1) == graph_nodes(g0).update(
            t as int,
            PackageNode { dependency_kind: kind, ..graph_nodes(g0)[t as int] },
        ),
        graph_edges(g1) == graph_edges(g0),
        graph_nodes(g2) == graph_nodes(g1),
        graph_edges(g2) == graph_edges(g1).push((f, t)),
        pkgs.len() < u32::MAX,
    ensures
        graph_after(g2, pkgs, edges.push((f, t, kind))),
{
    let e2 = edges.push((f, t, kind));
    assert(e2.drop_last() =~= edges);
    assert(edge_pairs(e2) =~= edge_pairs(edges).push((f, t)));
    assert(e2.last() == (f, t, kind));
    assert forall|j: int| 0 <= j < pkgs.len() implies #[trigger] graph_nodes(g2)[j] == package_node(pkgs, e2, j) by {
        assert(graph_nodes(g0)[j] == package_node(pkgs, edges, j));
        if j == t {
            assert(final_kind(e2, j as usize) == kind);
        } else {
            assert(final_kind(e2, j as usize) == final_kind(edges, j as usize));
            assert(graph_nodes(g2)[j] == graph_nodes(g0)[j]);
        }
    }
    assert forall|e: int| 0 <= e < e2.len() implies (#[trigger] e2[e]).0 < pkgs.len() && e2[e].1 < pkgs.len() by {
        if e < edges.len() {
            assert(e2[e] == edges[e]);
        }
    }
}

/// Builds the dependency graph: one node per listed package, in order
/// (name and version copied, not yet marked used), then for each resolve
/// node whose package is listed and each of its dependencies whose package
/// is listed, an edge from the node's package to the dependency's package;
/// each package's dependency kind is that of the last edge into it
/// (`Normal` if none). Ids are matched against the last package with that
/// id.
pub fn build_dependency_graph(metadata: &CargoMetadata) -> (graph: DepGraph)
    requires
        metadata.packages@.len() < u32::MAX,
        metadata_edges(*metadata).len() < u32::MAX,
    ensures
        graph_nodes(graph).len() == metadata.packages@.len(),
        graph_edges(graph) == edge_pairs(metadata_edges(*metadata)),
        forall|j: int|
            0 <= j < metadata.packages@.len() ==> #[trigger] graph_nodes(graph)[j] == package_node(
                metadata.packages@,
                metadata_edges(*metadata),
                j,
            ),
{
    let pkgs = &metadata.packages;
    let ghost ps = pkgs@;
    let ghost none: Seq<(usize, usize, DependencyKind)> = Seq::empty();
    let mut graph = graph_new();
    let mut j: usize = 0;
    while j < pkgs.len()
        invariant
            j <= pkgs@.len(),
            ps == pkgs@,
            pkgs@.len() < u32::MAX,
            graph_nodes(graph).len() == j,
            graph_edges(graph) == edge_pairs(none),
            none == Seq::<(usize, usize, DependencyKind)>::empty(),
            forall|i: int| 0 <= i < j ==> #[trigger] graph_nodes(graph)[i] == package_node(ps, none, i),
        decreases pkgs@.len() - j,
    {
        let p = &pkgs[j];
        let w = PackageNode {
            id: PackageId { name: p.name.clone(), version: p.version.clone() },
            dependency_kind: DependencyKind::Normal,
            source_used: false,
        };
        let ghost before = graph;
        graph_add_node(&mut graph, w);
        proof {
            assert(graph_nodes(graph)[j as int] == w);
            assert(p.name == ps[j as int].name);
            assert(p.version == ps[j as int].version);
            assert(final_kind(none, j) == DependencyKind::Normal);
            assert(w == package_node(ps, none, j as int));
            assert forall|i: int| 0 <= i < j + 1 implies #[trigger] graph_nodes(graph)[i] == package_node(ps, none, i) by {
                if i < j {
                    assert(graph_nodes(graph)[i] == graph_nodes(before)[i]);
                }
            }
        }
        j = j + 1;
    }
    assert(graph_after(graph, ps, none));
    match &metadata.resolve {
        None => {},
        Some(nodes) => {
            let ghost ns = nodes@;
            let mut k: usize = 0;
            assert(ns.take(0) =~= Seq::<ResolveNode>::empty());
            while k < nodes.len()
                invariant
                    k <= ns.len(),
                    ns == nodes@,
                    ps == pkgs@,
                    metadata.resolve == Some(*nodes),
                    ps == metadata.packages@,
                    ps.len() < u32::MAX,
                    metadata_edges(*metadata).len() < u32::MAX,
                    graph_after(graph, ps, resolve_edges(ps, ns.take(k as int))),
                decreases ns.len() - k,
            {
                let node = &nodes[k];
                let ghost before = resolve_edges(ps, ns.take(k as int));
                proof {
                    assert(ns.take(k + 1).drop_last() =~= ns.take(k as int));
                    assert(ns.take(k + 1).last() == *node);
                    lemma_resolve_edges_prefix(ps, ns, k + 1);
                }
                match find_package(pkgs, &node.id) {
                    None => {},
                    Some(f) => {
                        let ghost ds = node.deps@;
                        assert(resolve_edges(ps, ns.take(k + 1)) == before + dep_edges(ps, f as nat, ds));
                        assert(metadata_edges(*metadata) == resolve_edges(ps, ns));
                        assert(before.len() + dep_edges(ps, f as nat, ds).len() == resolve_edges(ps, ns.take(k + 1)).len());
                        let mut d: usize = 0;
                        assert(ds.take(0) =~= Seq::<MetadataDep>::empty());
                        assert(before + dep_edges(ps, f as nat, ds.take(0)) =~= before);
                        while d < node.deps.len()
                            invariant
                                d <= ds.len(),
                                ds == node.deps@,
                                ps == pkgs@,
                                f < ps.len(),
                                ps.len() < u32::MAX,
                                package_index(ps, node.id@) == Some(f as nat),
                                before.len() + dep_edges(ps, f as nat, ds).len() < u32::MAX,
                                graph_after(graph, ps, before + dep_edges(ps, f as nat, ds.take(d as int))),
                            decreases ds.len() - d,
                        {
                            let dep = &node.deps[d];
                            let ghost cur = before + dep_edges(ps, f as nat, ds.take(d as int));
                            proof {
                                assert(ds.take(d + 1).drop_last() =~= ds.take(d as int));
                                assert(ds.take(d + 1).last() == *dep);
                                lemma_dep_edges_prefix(ps, f as nat, ds, d as int);
                            }
                            match find_package(pkgs, &dep.pkg) {
                                None => {},
                                Some(t) => {
                                    let kind = kind_of_dep(dep);
                                    let ghost g0 = graph;
                                    let mut w = graph_node(&graph, t).clone();
                                    w.dependency_kind = kind;
                                    graph_set_node(&mut graph, t, w);
                                    let ghost g1 = graph;
                                    graph_add_edge(&mut graph, f, t);
                                    proof {
                                        lemma_apply_edge(g0, g1, graph, ps, cur, f, t, kind);
                                        assert(cur.push((f, t, kind)) =~= before + dep_edges(ps, f as nat, ds.take(d + 1)));
                                    }
                                },
                            }
                            proof {
                                if package_index(ps, dep.pkg@) is None {
                                    assert(cur =~= before + dep_edges(ps, f as nat, ds.take(d + 1)));
                                }
                            }
                            d = d + 1;
                        }
                        proof {
                            assert(ds.take(d as int) =~= ds);
                        }
                    },
                }
                k = k + 1;
            }
            assert(ns.take(k as int) =~= ns);
        },
    }
    graph
}

/// The kind of a dependency edge is decided by the first kind the
/// resolver lists for it: `dev` gives Dev, `build` gives Build, and
/// `normal`, an unknown kind or no kind at all give Normal; the kinds
/// listed after the first do not matter.
pub proof fn law_edge_kind_is_the_first_listed(d: MetadataDep)
    ensures
        d.dep_kinds@.len() == 0 ==> edge_kind(d) == DependencyKind::Normal,
        d.dep_kinds@.len() > 0 && d.dep_kinds@[0] == MetadataDepKind::Normal ==> edge_kind(d) == DependencyKind::Normal,
        d.dep_kinds@.len() > 0 && d.dep_kinds@[0] == MetadataDepKind::Development ==> edge_kind(d)
            == DependencyKind::Dev,
        d.dep_kinds@.len() > 0 && d.dep_kinds@[0] == MetadataDepKind::Build ==> edge_kind(d) == DependencyKind::Build,
        d.dep_kinds@.len() > 0 && d.dep_kinds@[0] == MetadataDepKind::Unknown ==> edge_kind(d)
            == DependencyKind::Normal,
        forall|other: MetadataDep|
            other.dep_kinds@.len() > 0 && d.dep_kinds@.len() > 0 && other.dep_kinds@[0] == d.dep_kinds@[0]
                ==> #[trigger] edge_kind(other) == edge_kind(d),
{
}

} // verus!
