//! The resolved dependency graph: a `petgraph` directed graph whose node
//! weights are [`PackageNode`]s, and the pieces of the pipeline that read or
//! update it without floating-point arithmetic.

use vstd::prelude::*;
use petgraph::graph::{DiGraph, NodeIndex};
use petgraph::Direction;
use crate::models::PackageNode;
use crate::text::{views, chars_of, string_of, contains_string};

verus! {

#[verifier::external_type_specification]
#[verifier::external_body]
#[verifier::reject_recursive_types(N)]
#[verifier::reject_recursive_types(E)]
#[verifier::reject_recursive_types(Ty)]
#[verifier::reject_recursive_types(Ix)]
pub struct ExGraph<N, E, Ty, Ix>(petgraph::graph::Graph<N, E, Ty, Ix>);

#[verifier::external_type_specification]
#[verifier::external_body]
pub struct ExDirected(petgraph::Directed);

/// The dependency graph: one node per package, an edge from a package to
/// each package it depends on.
pub type DepGraph = DiGraph<PackageNode, ()>;

/// The node weights of a graph, in index order.
pub uninterp spec fn graph_nodes(g: DiGraph<PackageNode, ()>) -> Seq<PackageNode>;

/// The edges of a graph as (source, target) index pairs, in the order in
/// which they were added.
pub uninterp spec fn graph_edges(g: DiGraph<PackageNode, ()>) -> Seq<(usize, usize)>;

/// Targets of the edges that leave `a`, most recently added edge first.
pub open spec fn outgoing_neighbors(edges: Seq<(usize, usize)>, a: usize) -> Seq<usize>
    decreases edges.len(),
{
    if edges.len() == 0 {
        Seq::empty()
    } else {
        let e = edges.last();
        let rest = outgoing_neighbors(edges.drop_last(), a);
        if e.0 == a {
            seq![e.1] + rest
        } else {
            rest
        }
    }
}

/// Sources of the edges that enter `a`, most recently added edge first.
pub open spec fn incoming_neighbors(edges: Seq<(usize, usize)>, a: usize) -> Seq<usize>
    decreases edges.len(),
{
    if edges.len() == 0 {
        Seq::empty()
    } else {
        let e = edges.last();
        let rest = incoming_neighbors(edges.drop_last(), a);
        if e.1 == a {
            seq![e.0] + rest
        } else {
            rest
        }
    }
}

/// Out-neighbors of node `a` of `g`.
pub open spec fn out_nbrs(g: DepGraph, a: usize) -> Seq<usize> {
    outgoing_neighbors(graph_edges(g), a)
}

/// In-neighbors of node `a` of `g`.
pub open spec fn in_nbrs(g: DepGraph, a: usize) -> Seq<usize> {
    incoming_neighbors(graph_edges(g), a)
}

/// `Graph::new`: a graph with no nodes and no edges.
#[verifier::external_body]
pub(crate) fn graph_new() -> (g: DepGraph)
    ensures
        graph_nodes(g) == Seq::<PackageNode>::empty(),
        graph_edges(g) == Seq::<(usize, usize)>::empty(),
{
    DiGraph::new()
}

/// `Graph::add_node`: appends a node weight and returns its index (the old
/// node count). It panics when the `u32` index space is exhausted.
#[verifier::external_body]
pub(crate) fn graph_add_node(g: &mut DepGraph, weight: PackageNode) -> (idx: usize)
    requires
        graph_nodes(*old(g)).len() < u32::MAX,
    ensures
        idx == graph_nodes(*old(g)).len(),
        graph_nodes(*final(g)) == graph_nodes(*old(g)).push(weight),
        graph_edges(*final(g)) == graph_edges(*old(g)),
{
    g.add_node(weight).index()
}

/// `Graph::add_edge`: appends the edge `a -> b`. It panics when either
/// endpoint is not a node, or when the `u32` index space is exhausted.
#[verifier::external_body]
pub(crate) fn graph_add_edge(g: &mut DepGraph, a: usize, b: usize)
    requires
        a < graph_nodes(*old(g)).len(),
        b < graph_nodes(*old(g)).len(),
        graph_edges(*old(g)).len() < u32::MAX,
    ensures
        graph_nodes(*final(g)) == graph_nodes(*old(g)),
        graph_edges(*final(g)) == graph_edges(*old(g)).push((a, b)),
{
    g.add_edge(NodeIndex::new(a), NodeIndex::new(b), ());
}

/// `Graph::node_count`.
#[verifier::external_body]
pub(crate) fn graph_node_count(g: &DepGraph) -> (n: usize)
    ensures
        n == graph_nodes(*g).len(),
{
    g.node_count()
}

/// `Index<NodeIndex>` on a graph: the weight of node `i` (panics when `i`
/// is not a node).
#[verifier::external_body]
pub(crate) fn graph_node(g: &DepGraph, i: usize) -> (w: &PackageNode)
    requires
        i < graph_nodes(*g).len(),
    ensures
        *w == graph_nodes(*g)[i as int],
{
    &g[NodeIndex::new(i)]
}

/// `IndexMut<NodeIndex>` on a graph: replaces the weight of node `i`
/// (panics when `i` is not a node).
#[verifier::external_body]
pub(crate) fn graph_set_node(g: &mut DepGraph, i: usize, w: PackageNode)
    requires
        i < graph_nodes(*old(g)).len(),
    ensures
        graph_nodes(*final(g)) == graph_nodes(*old(g)).update(i as int, w),
        graph_edges(*final(g)) == graph_edges(*old(g)),
{
    g[NodeIndex::new(i)] = w;
}

/// `Graph::neighbors_directed` on a directed graph: for `outgoing`, the
/// targets of the edges leaving `a`; otherwise the sources of the edges
/// entering `a`; in both cases the most recently added edge first, as the
/// method's documentation and its linked edge lists give. Every index it
/// yields is a node, since `add_edge` refuses edges to missing nodes. `a`
/// must be a node: `NodeIndex::new` keeps only the low 32 bits of it.
#[verifier::external_body]
pub(crate) fn graph_neighbors(g: &DepGraph, a: usize, outgoing: bool) -> (res: Vec<usize>)
    requires
        a < graph_nodes(*g).len(),
    ensures
        res@ == (if outgoing { out_nbrs(*g, a) } else { in_nbrs(*g, a) }),
        forall|k: int| 0 <= k < res@.len() ==> (#[trigger] res@[k]) < graph_nodes(*g).len(),
{
    let dir = if outgoing { Direction::Outgoing } else { Direction::Incoming };
    g.neighbors_directed(NodeIndex::new(a), dir).map(|n| n.index()).collect()
}


/// The identifier under which a package is imported: its name with every
/// `-` replaced by `_`.
pub open spec fn crate_ident(name: Seq<char>) -> Seq<char> {
    name.map_values(|c: char| if c == '-' { '_' } else { c })
}

fn to_crate_ident(name: &String) -> (res: String)
    ensures
        res@ == crate_ident(name@),
{
    let cs = chars_of(name.as_str());
    let mut out: Vec<char> = Vec::new();
    let mut i: usize = 0;
    while i < cs.len()
        invariant
            i <= cs@.len(),
            cs@ == name@,
            out@ =~= crate_ident(name@).take(i as int),
        decreases cs@.len() - i,
    {
        let c = cs[i];
        out.push(if c == '-' { '_' } else { c });
        i = i + 1;
    }
    string_of(&out)
}

/// `node` with `source_used` set by whether its crate identifier is among
/// `used`.
pub open spec fn marked(node: PackageNode, used: Seq<String>) -> PackageNode {
    PackageNode { source_used: views(used).contains(crate_ident(node.id.name@)), ..node }
}

/// Marks each package as used or not: a node is used iff the identifier of
/// its name is among `used_crates` (the crate identifiers that the
/// project's `use`/`extern crate` declarations name). Nothing else changes.
pub fn mark_source_usage(graph: &mut DepGraph, used_crates: &Vec<String>)
    ensures
        graph_edges(*final(graph)) == graph_edges(*old(graph)),
        graph_nodes(*final(graph)).len() == graph_nodes(*old(graph)).len(),
        forall|j: int|
            0 <= j < graph_nodes(*old(graph)).len() ==> #[trigger] graph_nodes(*final(graph))[j] == marked(
                graph_nodes(*old(graph))[j],
                used_crates@,
            ),
{
    let ghost g0 = *graph;
    let n = graph_node_count(graph);
    let mut i: usize = 0;
    while i < n
        invariant
            i <= n,
            n == graph_nodes(g0).len(),
            graph_edges(*graph) == graph_edges(g0),
            graph_nodes(*graph).len() == n,
            forall|j: int|
                0 <= j < n ==> #[trigger] graph_nodes(*graph)[j] == (if j < i {
                    marked(graph_nodes(g0)[j], used_crates@)
                } else {
                    graph_nodes(g0)[j]
                }),
        decreases n - i,
    {
        let mut w = graph_node(graph, i).clone();
        let ident = to_crate_ident(&w.id.name);
        w.source_used = contains_string(used_crates, &ident);
        graph_set_node(graph, i, w);
        i = i + 1;
    }
}

/// The number of edges leaving each node, in node order.
pub fn out_degrees(graph: &DepGraph) -> (res: Vec<usize>)
    ensures
        res@.len() == graph_nodes(*graph).len(),
        forall|i: int| 0 <= i < res@.len() ==> res@[i] == out_nbrs(*graph, i as usize).len(),
{
    let n = graph_node_count(graph);
    let mut res: Vec<usize> = Vec::new();
    let mut i: usize = 0;
    while i < n
        invariant
            i <= n,
            n == graph_nodes(*graph).len(),
            res@.len() == i,
            forall|k: int| 0 <= k < i ==> res@[k] == out_nbrs(*graph, k as usize).len(),
        decreases n - i,
    {
        let nb = graph_neighbors(graph, i, true);
        res.push(nb.len());
        i = i + 1;
    }
    res
}

/// Index of the last node named `name`.
pub open spec fn node_named(nodes: Seq<PackageNode>, name: Seq<char>) -> Option<nat>
    decreases nodes.len(),
{
    if nodes.len() == 0 {
        None
    } else if nodes.last().id.name@ == name {
        Some((nodes.len() - 1) as nat)
    } else {
        node_named(nodes.drop_last(), name)
    }
}

/// Finds the node of a package by name (the last one when several share
/// the name) and whether the project's sources use it.
pub fn locate_package(graph: &DepGraph, name: &String) -> (res: Option<(usize, bool)>)
    ensures
        match node_named(graph_nodes(*graph), name@) {
            Some(i) => res == Some((i as usize, graph_nodes(*graph)[i as int].source_used)),
            None => res is None,
        },
{
    let ghost nodes = graph_nodes(*graph);
    let mut i = graph_node_count(graph);
    assert(nodes.take(i as int) =~= nodes);
    while i > 0
        invariant
            i <= nodes.len(),
            nodes == graph_nodes(*graph),
            node_named(nodes, name@) == node_named(nodes.take(i as int), name@),
        decreases i,
    {
        assert(nodes.take(i as int).drop_last() =~= nodes.take(i - 1));
        let w = graph_node(graph, i - 1);
        if w.id.name == *name {
            return Some((i - 1, w.source_used));
        }
        i = i - 1;
    }
    None
}

/// A package's crate identifier is its name with each `-` turned into `_`
/// and every other character kept; so a name without `-` is its own
/// identifier.
pub proof fn law_crate_ident_replaces_only_hyphens(name: Seq<char>)
    ensures
        crate_ident(name).len() == name.len(),
        forall|i: int| 0 <= i < name.len() ==> #[trigger] crate_ident(name)[i] == (if name[i] == '-' {
            '_'
        } else {
            name[i]
        }),
        (forall|i: int| 0 <= i < name.len() ==> name[i] != '-') ==> crate_ident(name) == name,
{
    if forall|i: int| 0 <= i < name.len() ==> name[i] != '-' {
        assert(crate_ident(name) =~= name);
    }
}

/// A package is marked used exactly when its name, with each `-` written
/// as `_`, is among the used identifiers; everything else about the node
/// stays.
pub proof fn law_marked_used_iff_identifier_used(node: PackageNode, used: Seq<String>, ident: Seq<char>)
    requires
        ident.len() == node.id.name@.len(),
        forall|i: int| 0 <= i < ident.len() ==> #[trigger] ident[i] == (if node.id.name@[i] == '-' {
            '_'
        } else {
            node.id.name@[i]
        }),
    ensures
        marked(node, used).source_used <==> views(used).contains(ident),
        marked(node, used).id == node.id,
        marked(node, used).dependency_kind == node.dependency_kind,
{
    assert(crate_ident(node.id.name@) =~= ident);
}

} // verus!
