//! The dependency graph rendered as an indented tree, the way `cargo tree`
//! prints it: a package is expanded the first time it is reached, and every
//! later encounter is a leaf marked as a repeat instead of a re-expansion.
//! Siblings are ordered by vulnerability status (reachable vulnerable
//! first, safe last), then by name.

use vstd::prelude::*;
use crate::graph::{DepGraph, graph_nodes, out_nbrs, in_nbrs, graph_node, graph_node_count, graph_neighbors};
use crate::models::PackageNode;
use crate::text::{views, lex_le, lex_le_chars, contains_string, chars_of, lemma_lex_le_total, lemma_lex_le_transitive};

verus! {

/// How a package is coloured in the tree.
#[derive(Debug, Clone, Copy, PartialEq, Eq, Structural)]
pub enum NodeStatus {
    Safe,
    VulnerableUnreachable,
    VulnerableReachable,
}

/// Sort rank of a status: reachable vulnerable packages first.
pub open spec fn rank_of(status: NodeStatus) -> u8 {
    match status {
        NodeStatus::VulnerableReachable => 0,
        NodeStatus::VulnerableUnreachable => 1,
        NodeStatus::Safe => 2,
    }
}

/// Sort rank of a status: reachable vulnerable packages first.
pub fn status_rank(status: NodeStatus) -> (r: u8)
    ensures
        r == rank_of(status),
{
    match status {
        NodeStatus::VulnerableReachable => 0,
        NodeStatus::VulnerableUnreachable => 1,
        NodeStatus::Safe => 2,
    }
}

/// Status of a package name, given the names with a known vulnerability
/// and the names whose vulnerability is reachable.
pub open spec fn classify_name(
    name: Seq<char>,
    vulnerable: Seq<Seq<char>>,
    reachable: Seq<Seq<char>>,
) -> NodeStatus {
    if reachable.contains(name) {
        NodeStatus::VulnerableReachable
    } else if vulnerable.contains(name) {
        NodeStatus::VulnerableUnreachable
    } else {
        NodeStatus::Safe
    }
}

/// Status of a package name, given the names with a known vulnerability
/// and the names whose vulnerability is reachable.
pub fn classify(
    name: &String,
    vulnerable_names: &Vec<String>,
    reachable_vulnerable_names: &Vec<String>,
) -> (r: NodeStatus)
    ensures
        r == classify_name(name@, views(vulnerable_names@), views(reachable_vulnerable_names@)),
{
    if contains_string(reachable_vulnerable_names, name) {
        NodeStatus::VulnerableReachable
    } else if contains_string(vulnerable_names, name) {
        NodeStatus::VulnerableUnreachable
    } else {
        NodeStatus::Safe
    }
}

/// A sibling's sort key: status rank, then name; `node` rides along.
pub struct SortKey {
    pub rank: u8,
    pub name: Seq<char>,
    pub node: usize,
}

/// `a` may precede `b`: smaller rank, or equal rank and name not greater.
pub open spec fn key_le(a: SortKey, b: SortKey) -> bool {
    a.rank < b.rank || (a.rank == b.rank && lex_le(a.name, b.name))
}

/// Inserts `x` after every element of `s` that may precede it, scanning
/// from the back: one step of a stable insertion sort.
pub open spec fn insert_by_key(s: Seq<SortKey>, x: SortKey) -> Seq<SortKey>
    decreases s.len(),
{
    if s.len() == 0 {
        seq![x]
    } else if key_le(s.last(), x) {
        s.push(x)
    } else {
        insert_by_key(s.drop_last(), x).push(s.last())
    }
}

/// Stable sort by [`key_le`]: elements with equal keys keep their order.
pub open spec fn sort_by_key(s: Seq<SortKey>) -> Seq<SortKey>
    decreases s.len(),
{
    if s.len() == 0 {
        s
    } else {
        insert_by_key(sort_by_key(s.drop_last()), s.last())
    }
}

struct Entry {
    rank: u8,
    name: Vec<char>,
    node: usize,
}

impl View for Entry {
    type V = SortKey;

    closed spec fn view(&self) -> SortKey {
        SortKey { rank: self.rank, name: self.name@, node: self.node }
    }
}

spec fn keys_of(s: Seq<Entry>) -> Seq<SortKey> {
    s.map_values(|e: Entry| e@)
}

fn entry_le(a: &Entry, b: &Entry) -> (res: bool)
    ensures
        res == key_le(a@, b@),
{
    if a.rank < b.rank {
        true
    } else if a.rank == b.rank {
        lex_le_chars(&a.name, &b.name)
    } else {
        false
    }
}

proof fn lemma_insert_at(s: Seq<SortKey>, x: SortKey, j: int)
    requires
        0 <= j <= s.len(),
        j == 0 || key_le(s[j - 1], x),
        forall|k: int| j <= k < s.len() ==> !key_le(#[trigger] s[k], x),
    ensures
        insert_by_key(s, x) == s.take(j).push(x) + s.skip(j),
    decreases s.len(),
{
    if s.len() == 0 {
        assert(s.take(j).push(x) + s.skip(j) =~= seq![x]);
    } else if j == s.len() {
        assert(s.take(j) =~= s);
        assert(s.take(j).push(x) + s.skip(j) =~= s.push(x));
    } else {
        let d = s.drop_last();
        assert forall|k: int| j <= k < d.len() implies !key_le(#[trigger] d[k], x) by {
            assert(d[k] == s[k]);
        }
        lemma_insert_at(d, x, j);
        assert(insert_by_key(s, x) == insert_by_key(d, x).push(s.last()));
        assert(d.take(j).push(x) + d.skip(j) + seq![s.last()] =~= s.take(j).push(x) + s.skip(j));
    }
}

fn sort_entries(v: Vec<Entry>, Ghost(bound): Ghost<nat>) -> (res: Vec<Entry>)
    requires
        forall|k: int| 0 <= k < v@.len() ==> (#[trigger] v@[k]).node < bound,
    ensures
        keys_of(res@) == sort_by_key(keys_of(v@)),
        forall|k: int| 0 <= k < res@.len() ==> (#[trigger] res@[k]).node < bound,
{
    let ghost orig = keys_of(v@);
    let mut rest = v;
    let mut out: Vec<Entry> = Vec::new();
    let ghost taken: int = 0;
    assert(orig.take(0) =~= Seq::<SortKey>::empty());
    assert(orig.skip(0) =~= orig);
    while rest.len() > 0
        invariant
            0 <= taken <= orig.len(),
            rest@.len() == orig.len() - taken,
            keys_of(rest@) == orig.skip(taken),
            keys_of(out@) == sort_by_key(orig.take(taken)),
            forall|k: int| 0 <= k < rest@.len() ==> (#[trigger] rest@[k]).node < bound,
            forall|k: int| 0 <= k < out@.len() ==> (#[trigger] out@[k]).node < bound,
        decreases rest@.len(),
    {
        let ghost old_rest = rest@;
        let x = rest.remove(0);
        proof {
            assert(keys_of(old_rest)[0] == orig.skip(taken)[0]);
            assert(x@ == orig[taken]);
            assert(rest@ =~= old_rest.subrange(1, old_rest.len() as int));
            assert forall|k: int| 0 <= k < rest@.len() implies keys_of(rest@)[k] == orig.skip(taken + 1)[k] by {
                assert(keys_of(rest@)[k] == rest@[k]@);
                assert(rest@[k] == old_rest[k + 1]);
                assert(keys_of(old_rest)[k + 1] == orig.skip(taken)[k + 1]);
            }
            assert(keys_of(rest@) =~= orig.skip(taken + 1));
        }
        let mut j = out.len();
        while j > 0 && !entry_le(&out[j - 1], &x)
            invariant
                j <= out@.len(),
                forall|k: int| j <= k < out@.len() ==> !key_le(#[trigger] keys_of(out@)[k], x@),
            decreases j,
        {
            j = j - 1;
        }
        proof {
            lemma_insert_at(keys_of(out@), x@, j as int);
            assert(orig.take(taken + 1).drop_last() =~= orig.take(taken));
            assert(orig.take(taken + 1).last() == x@);
        }
        let ghost old_out = out@;
        out.insert(j, x);
        proof {
            assert(keys_of(out@) =~= keys_of(old_out).take(j as int).push(x@) + keys_of(old_out).skip(j as int));
            taken = taken + 1;
        }
    }
    assert(orig.take(taken) =~= orig);
    out
}


/// One row of the rendered tree.
#[derive(Debug)]
pub struct TreeLine {
    /// Connector prefix, e.g. "│   ├── ", ready to render as-is.
    pub prefix: String,
    pub name: String,
    pub version: String,
    pub status: NodeStatus,
    /// Index of the package's node in the graph; per-node data kept beside
    /// the graph (such as centrality) is found by it.
    pub node: usize,
    /// True if this package was already expanded earlier in the tree; this
    /// row is a leaf marker, not a re-expansion of its subtree.
    pub is_repeat: bool,
}

/// The content of a [`TreeLine`].
pub struct TreeLineView {
    pub prefix: Seq<char>,
    pub name: Seq<char>,
    pub version: Seq<char>,
    pub status: NodeStatus,
    pub node: usize,
    pub is_repeat: bool,
}

impl View for TreeLine {
    type V = TreeLineView;

    open spec fn view(&self) -> TreeLineView {
        TreeLineView {
            prefix: self.prefix@,
            name: self.name@,
            version: self.version@,
            status: self.status,
            node: self.node,
            is_repeat: self.is_repeat,
        }
    }
}

pub open spec fn lines_view(s: Seq<TreeLine>) -> Seq<TreeLineView> {
    s.map_values(|l: TreeLine| l@)
}

/// Status of node `i` of `g`.
pub open spec fn node_status(
    g: DepGraph,
    vulnerable: Seq<Seq<char>>,
    reachable: Seq<Seq<char>>,
    i: usize,
) -> NodeStatus {
    classify_name(graph_nodes(g)[i as int].id.name@, vulnerable, reachable)
}

/// Sort key of node `i` of `g` among its siblings.
pub open spec fn child_key(
    g: DepGraph,
    vulnerable: Seq<Seq<char>>,
    reachable: Seq<Seq<char>>,
    i: usize,
) -> SortKey {
    SortKey {
        rank: rank_of(node_status(g, vulnerable, reachable, i)),
        name: graph_nodes(g)[i as int].id.name@,
        node: i,
    }
}

/// The dependencies of node `i`, in the order in which the tree lists them.
pub open spec fn sorted_children(
    g: DepGraph,
    vulnerable: Seq<Seq<char>>,
    reachable: Seq<Seq<char>>,
    i: usize,
) -> Seq<usize> {
    sort_by_key(out_nbrs(g, i).map_values(|c: usize| child_key(g, vulnerable, reachable, c))).map_values(
        |k: SortKey| k.node,
    )
}

/// Connector in front of a package's own row.
pub open spec fn connector(is_root: bool, is_last: bool) -> Seq<char> {
    if is_root {
        ""@
    } else if is_last {
        "└── "@
    } else {
        "├── "@
    }
}

/// What a row adds to the prefix of its children's rows.
pub open spec fn child_pad(is_root: bool, is_last: bool) -> Seq<char> {
    if is_root {
        ""@
    } else if is_last {
        "    "@
    } else {
        "│   "@
    }
}

/// Rows produced by visiting node `idx` under `prefix`, with the set of
/// already-expanded nodes before and after. `fuel` bounds the depth; any
/// fuel above the number of unexpanded nodes gives the full result.
pub open spec fn walk_node(
    g: DepGraph,
    vulnerable: Seq<Seq<char>>,
    reachable: Seq<Seq<char>>,
    idx: usize,
    prefix: Seq<char>,
    is_last: bool,
    is_root: bool,
    visited: Set<usize>,
    fuel: nat,
) -> (Seq<TreeLineView>, Set<usize>)
    decreases fuel, 0int,
{
    if fuel == 0 {
        (Seq::empty(), visited)
    } else {
        let n = graph_nodes(g)[idx as int];
        let line = TreeLineView {
            prefix: prefix + connector(is_root, is_last),
            name: n.id.name@,
            version: n.id.version@,
            status: node_status(g, vulnerable, reachable, idx),
            node: idx,
            is_repeat: visited.contains(idx),
        };
        if visited.contains(idx) {
            (seq![line], visited)
        } else {
            let r = walk_list(
                g,
                vulnerable,
                reachable,
                sorted_children(g, vulnerable, reachable, idx),
                0,
                prefix + child_pad(is_root, is_last),
                false,
                visited.insert(idx),
                (fuel - 1) as nat,
            );
            (seq![line] + r.0, r.1)
        }
    }
}

/// Rows produced by visiting `items[k..]` in order as siblings.
pub open spec fn walk_list(
    g: DepGraph,
    vulnerable: Seq<Seq<char>>,
    reachable: Seq<Seq<char>>,
    items: Seq<usize>,
    k: nat,
    prefix: Seq<char>,
    is_root: bool,
    visited: Set<usize>,
    fuel: nat,
) -> (Seq<TreeLineView>, Set<usize>)
    decreases fuel, items.len() - k,
{
    if k >= items.len() {
        (Seq::empty(), visited)
    } else {
        let a = walk_node(
            g,
            vulnerable,
            reachable,
            items[k as int],
            prefix,
            k + 1 == items.len(),
            is_root,
            visited,
            fuel,
        );
        let b = walk_list(g, vulnerable, reachable, items, k + 1, prefix, is_root, a.1, fuel);
        (a.0 + b.0, b.1)
    }
}

/// Sort keys (rank 0, so by name) of the nodes among the first `k` that
/// no edge enters.
pub open spec fn root_keys(g: DepGraph, k: nat) -> Seq<SortKey>
    decreases k,
{
    if k == 0 {
        Seq::empty()
    } else {
        let i = (k - 1) as usize;
        let prev = root_keys(g, (k - 1) as nat);
        if in_nbrs(g, i).len() == 0 {
            prev.push(SortKey { rank: 0, name: graph_nodes(g)[i as int].id.name@, node: i })
        } else {
            prev
        }
    }
}

/// Sort keys (rank 0, so by name) of the first `k` nodes.
pub open spec fn all_keys(g: DepGraph, k: nat) -> Seq<SortKey>
    decreases k,
{
    if k == 0 {
        Seq::empty()
    } else {
        let i = (k - 1) as usize;
        all_keys(g, (k - 1) as nat).push(
            SortKey { rank: 0, name: graph_nodes(g)[i as int].id.name@, node: i },
        )
    }
}

/// The tree's top-level packages, by name: the nodes that no edge enters,
/// or every node when a non-empty graph has none.
pub open spec fn root_order(g: DepGraph) -> Seq<usize> {
    let n = graph_nodes(g).len();
    let r = root_keys(g, n);
    let cands = if r.len() == 0 && n > 0 {
        all_keys(g, n)
    } else {
        r
    };
    sort_by_key(cands).map_values(|k: SortKey| k.node)
}

/// The rows of the whole tree.
pub open spec fn tree_lines(
    g: DepGraph,
    vulnerable: Seq<Seq<char>>,
    reachable: Seq<Seq<char>>,
) -> Seq<TreeLineView> {
    walk_list(
        g,
        vulnerable,
        reachable,
        root_order(g),
        0,
        Seq::empty(),
        true,
        Set::empty(),
        (graph_nodes(g).len() + 1) as nat,
    ).0
}

/// Row `i` repeats a package iff one of the rows before it shows the
/// same node.
pub open spec fn repeats_marked(ls: Seq<TreeLineView>) -> bool {
    forall|i: int| 0 <= i < ls.len() ==> (#[trigger] ls[i]).is_repeat == shown(ls.take(i), ls[i].node)
}

/// Some row shows node `v`.
pub open spec fn shown(ls: Seq<TreeLineView>, v: usize) -> bool {
    exists|j: int| 0 <= j < ls.len() && ls[j].node == v
}

spec fn tracks(vis: Seq<bool>, ls: Seq<TreeLineView>) -> bool {
    forall|v: usize| (v as int) < vis.len() ==> (vis[v as int] <==> #[trigger] shown(ls, v))
}

spec fn count_true(s: Seq<bool>) -> nat
    decreases s.len(),
{
    if s.len() == 0 {
        0
    } else {
        count_true(s.drop_last()) + if s.last() {
            1nat
        } else {
            0nat
        }
    }
}

spec fn set_of(s: Seq<bool>) -> Set<usize> {
    Set::new(|v: usize| (v as int) < s.len() && s[v as int])
}

proof fn lemma_count_le_len(s: Seq<bool>)
    ensures
        count_true(s) <= s.len(),
    decreases s.len(),
{
    if s.len() > 0 {
        lemma_count_le_len(s.drop_last());
    }
}

proof fn lemma_count_mono(a: Seq<bool>, b: Seq<bool>)
    requires
        a.len() == b.len(),
        forall|i: int| 0 <= i < a.len() && a[i] ==> b[i],
    ensures
        count_true(a) <= count_true(b),
    decreases a.len(),
{
    if a.len() > 0 {
        lemma_count_mono(a.drop_last(), b.drop_last());
    }
}

proof fn lemma_count_set(s: Seq<bool>, i: int)
    requires
        0 <= i < s.len(),
        !s[i],
    ensures
        count_true(s.update(i, true)) == count_true(s) + 1,
    decreases s.len(),
{
    let t = s.update(i, true);
    if i == s.len() - 1 {
        assert(t.drop_last() =~= s.drop_last());
    } else {
        lemma_count_set(s.drop_last(), i);
        assert(t.drop_last() =~= s.drop_last().update(i, true));
    }
}


proof fn lemma_shown_push(ls: Seq<TreeLineView>, l: TreeLineView, v: usize)
    ensures
        shown(ls.push(l), v) == (shown(ls, v) || l.node == v),
{
    let t = ls.push(l);
    if shown(ls, v) {
        let j = choose|j: int| 0 <= j < ls.len() && ls[j].node == v;
        assert(t[j] == ls[j]);
    }
    if l.node == v {
        assert(t[ls.len() as int] == l);
    }
    if shown(t, v) {
        let j = choose|j: int| 0 <= j < t.len() && t[j].node == v;
        if j < ls.len() {
            assert(t[j] == ls[j]);
        }
    }
}

proof fn lemma_repeats_push(ls: Seq<TreeLineView>, l: TreeLineView)
    requires
        repeats_marked(ls),
        l.is_repeat == shown(ls, l.node),
    ensures
        repeats_marked(ls.push(l)),
{
    let t = ls.push(l);
    assert forall|i: int| 0 <= i < t.len() implies (#[trigger] t[i]).is_repeat == shown(t.take(i), t[i].node) by {
        assert(t.take(i) =~= ls.take(i));
        if i < ls.len() {
            assert(t[i] == ls[i]);
        } else {
            assert(ls.take(i) =~= ls);
        }
    }
}

fn nodes_of(sorted: &Vec<Entry>) -> (res: Vec<usize>)
    ensures
        res@ == keys_of(sorted@).map_values(|k: SortKey| k.node),
        forall|k: int| 0 <= k < res@.len() ==> res@[k] == (#[trigger] sorted@[k]).node,
{
    let mut res: Vec<usize> = Vec::new();
    let mut k: usize = 0;
    while k < sorted.len()
        invariant
            k <= sorted@.len(),
            res@ =~= keys_of(sorted@).take(k as int).map_values(|s: SortKey| s.node),
            forall|j: int| 0 <= j < res@.len() ==> res@[j] == (#[trigger] sorted@[j]).node,
        decreases sorted@.len() - k,
    {
        res.push(sorted[k].node);
        proof {
            assert(keys_of(sorted@).take(k + 1).map_values(|s: SortKey| s.node) =~= keys_of(
                sorted@,
            ).take(k as int).map_values(|s: SortKey| s.node).push(sorted@[k as int].node));
        }
        k = k + 1;
    }
    assert(keys_of(sorted@).take(k as int) =~= keys_of(sorted@));
    res
}

fn children_in_order(
    g: &DepGraph,
    idx: usize,
    vulnerable_names: &Vec<String>,
    reachable_vulnerable_names: &Vec<String>,
) -> (res: Vec<usize>)
    requires
        idx < graph_nodes(*g).len(),
    ensures
        res@ == sorted_children(*g, views(vulnerable_names@), views(reachable_vulnerable_names@), idx),
        forall|k: int| 0 <= k < res@.len() ==> (#[trigger] res@[k]) < graph_nodes(*g).len(),
{
    let ghost vn = views(vulnerable_names@);
    let ghost rn = views(reachable_vulnerable_names@);
    let ghost n = graph_nodes(*g).len();
    let nb = graph_neighbors(g, idx, true);
    let mut entries: Vec<Entry> = Vec::new();
    let mut j: usize = 0;
    while j < nb.len()
        invariant
            j <= nb@.len(),
            nb@ == out_nbrs(*g, idx),
            forall|k: int| 0 <= k < nb@.len() ==> (#[trigger] nb@[k]) < n,
            n == graph_nodes(*g).len(),
            vn == views(vulnerable_names@),
            rn == views(reachable_vulnerable_names@),
            keys_of(entries@) =~= nb@.take(j as int).map_values(|c: usize| child_key(*g, vn, rn, c)),
            forall|k: int| 0 <= k < entries@.len() ==> (#[trigger] entries@[k]).node < n,
        decreases nb@.len() - j,
    {
        let c = nb[j];
        let node = graph_node(g, c);
        let status = classify(&node.id.name, vulnerable_names, reachable_vulnerable_names);
        let e = Entry { rank: status_rank(status), name: chars_of(node.id.name.as_str()), node: c };
        entries.push(e);
        proof {
            assert(nb@.take(j + 1).map_values(|c: usize| child_key(*g, vn, rn, c)) =~= nb@.take(
                j as int,
            ).map_values(|c: usize| child_key(*g, vn, rn, c)).push(child_key(*g, vn, rn, c)));
        }
        j = j + 1;
    }
    assert(nb@.take(j as int) =~= nb@);
    let sorted = sort_entries(entries, Ghost(n));
    let res = nodes_of(&sorted);
    assert(res@ =~= sorted_children(*g, vn, rn, idx));
    res
}

fn ordered_roots(g: &DepGraph) -> (res: Vec<usize>)
    ensures
        res@ == root_order(*g),
        forall|k: int| 0 <= k < res@.len() ==> (#[trigger] res@[k]) < graph_nodes(*g).len(),
{
    let n = graph_node_count(g);
    let mut entries: Vec<Entry> = Vec::new();
    let mut i: usize = 0;
    while i < n
        invariant
            i <= n,
            n == graph_nodes(*g).len(),
            keys_of(entries@) =~= root_keys(*g, i as nat),
            forall|k: int| 0 <= k < entries@.len() ==> (#[trigger] entries@[k]).node < n,
        decreases n - i,
    {
        let incoming = graph_neighbors(g, i, false);
        if incoming.len() == 0 {
            let node = graph_node(g, i);
            entries.push(Entry { rank: 0, name: chars_of(node.id.name.as_str()), node: i });
        }
        i = i + 1;
    }
    if entries.len() == 0 && n > 0 {
        let mut j: usize = 0;
        while j < n
            invariant
                j <= n,
                n == graph_nodes(*g).len(),
                keys_of(entries@) =~= all_keys(*g, j as nat),
                forall|k: int| 0 <= k < entries@.len() ==> (#[trigger] entries@[k]).node < n,
            decreases n - j,
        {
            let node = graph_node(g, j);
            entries.push(Entry { rank: 0, name: chars_of(node.id.name.as_str()), node: j });
            j = j + 1;
        }
    }
    let sorted = sort_entries(entries, Ghost(n as nat));
    let res = nodes_of(&sorted);
    assert(res@ =~= root_order(*g));
    res
}


proof fn lemma_tracks_push(vis: Seq<bool>, ls: Seq<TreeLineView>, l: TreeLineView)
    requires
        tracks(vis, ls),
        (l.node as int) < vis.len(),
        vis[l.node as int],
    ensures
        tracks(vis, ls.push(l)),
{
    assert forall|v: usize| (v as int) < vis.len() implies (vis[v as int] <==> #[trigger] shown(ls.push(l), v)) by {
        lemma_shown_push(ls, l, v);
    }
}

proof fn lemma_tracks_mark(vis: Seq<bool>, ls: Seq<TreeLineView>, l: TreeLineView)
    requires
        tracks(vis, ls),
        (l.node as int) < vis.len(),
    ensures
        tracks(vis.update(l.node as int, true), ls.push(l)),
{
    let w = vis.update(l.node as int, true);
    assert forall|v: usize| (v as int) < w.len() implies (w[v as int] <==> #[trigger] shown(ls.push(l), v)) by {
        lemma_shown_push(ls, l, v);
    }
}

#[verifier::rlimit(30)]
fn walk(
    g: &DepGraph,
    idx: usize,
    ancestor_prefix: &String,
    is_last: bool,
    is_root: bool,
    visited: &mut Vec<bool>,
    lines: &mut Vec<TreeLine>,
    vulnerable_names: &Vec<String>,
    reachable_vulnerable_names: &Vec<String>,
    Ghost(fuel): Ghost<nat>,
)
    requires
        idx < graph_nodes(*g).len(),
        old(visited)@.len() == graph_nodes(*g).len(),
        fuel + count_true(old(visited)@) > graph_nodes(*g).len(),
        repeats_marked(lines_view(old(lines)@)),
        tracks(old(visited)@, lines_view(old(lines)@)),
    ensures
        final(visited)@.len() == old(visited)@.len(),
        forall|v: int| 0 <= v < old(visited)@.len() && old(visited)@[v] ==> final(visited)@[v],
        repeats_marked(lines_view(final(lines)@)),
        tracks(final(visited)@, lines_view(final(lines)@)),
        ({
            let r = walk_node(
                *g,
                views(vulnerable_names@),
                views(reachable_vulnerable_names@),
                idx,
                ancestor_prefix@,
                is_last,
                is_root,
                set_of(old(visited)@),
                fuel,
            );
            lines_view(final(lines)@) == lines_view(old(lines)@) + r.0 && set_of(final(visited)@)
                == r.1
        }),
    decreases graph_nodes(*g).len() - count_true(old(visited)@),
{
    let ghost vn = views(vulnerable_names@);
    let ghost rn = views(reachable_vulnerable_names@);
    let ghost n = graph_nodes(*g).len();
    let ghost vis0 = visited@;
    let ghost lines0 = lines_view(lines@);
    let node = graph_node(g, idx);
    let status = classify(&node.id.name, vulnerable_names, reachable_vulnerable_names);
    let connector_text: &str = if is_root {
        ""
    } else if is_last {
        "└── "
    } else {
        "├── "
    };
    let mut prefix = ancestor_prefix.clone();
    prefix.append(connector_text);
    let is_repeat = visited[idx];
    let line = TreeLine {
        prefix,
        name: node.id.name.clone(),
        version: node.id.version.clone(),
        status,
        node: idx,
        is_repeat,
    };
    let ghost lv = line@;
    lines.push(line);
    proof {
        assert(lines_view(lines@) =~= lines0.push(lv));
        assert(set_of(vis0).contains(idx) == vis0[idx as int]);
        assert(is_repeat == shown(lines0, idx));
        lemma_repeats_push(lines0, lv);
        lemma_count_le_len(vis0);
        assert(lv == TreeLineView {
            prefix: ancestor_prefix@ + connector(is_root, is_last),
            name: graph_nodes(*g)[idx as int].id.name@,
            version: graph_nodes(*g)[idx as int].id.version@,
            status: node_status(*g, vn, rn, idx),
            node: idx,
            is_repeat: set_of(vis0).contains(idx),
        });
    }
    if is_repeat {
        proof {
            lemma_tracks_push(vis0, lines0, lv);
            assert(lines_view(lines@) =~= lines0 + seq![lv]);
            assert(walk_node(*g, vn, rn, idx, ancestor_prefix@, is_last, is_root, set_of(vis0), fuel) == (
            seq![lv], set_of(vis0)));
        }
        return;
    }
    visited.set(idx, true);
    proof {
        lemma_count_set(vis0, idx as int);
        lemma_tracks_mark(vis0, lines0, lv);
        assert(set_of(visited@) =~= set_of(vis0).insert(idx));
    }
    let children = children_in_order(g, idx, vulnerable_names, reachable_vulnerable_names);
    let pad: &str = if is_root {
        ""
    } else if is_last {
        "    "
    } else {
        "│   "
    };
    let mut child_prefix = ancestor_prefix.clone();
    child_prefix.append(pad);
    let n_children = children.len();
    let ghost start = lines_view(lines@);
    let ghost cfuel = (fuel - 1) as nat;
    let ghost whole = walk_list(*g, vn, rn, children@, 0, child_prefix@, false, set_of(visited@), cfuel);
    let ghost vis1 = visited@;
    let mut i: usize = 0;
    assert(lines_view(lines@).subrange(start.len() as int, lines@.len() as int) =~= Seq::<TreeLineView>::empty());
    while i < n_children
        invariant
            i <= n_children,
            n_children == children@.len(),
            children@ == sorted_children(*g, vn, rn, idx),
            forall|k: int| 0 <= k < children@.len() ==> (#[trigger] children@[k]) < n,
            n == graph_nodes(*g).len(),
            vn == views(vulnerable_names@),
            rn == views(reachable_vulnerable_names@),
            visited@.len() == n,
            vis1.len() == n,
            vis0 == old(visited)@,
            forall|v: int| 0 <= v < n && vis0[v] ==> visited@[v],
            forall|v: int| 0 <= v < n && vis1[v] ==> visited@[v],
            count_true(visited@) >= count_true(vis1),
            count_true(vis1) == count_true(vis0) + 1,
            cfuel + count_true(visited@) > n,
            repeats_marked(lines_view(lines@)),
            tracks(visited@, lines_view(lines@)),
            start.len() <= lines@.len(),
            lines_view(lines@).subrange(0, start.len() as int) == start,
            ({
                let rest = walk_list(*g, vn, rn, children@, i as nat, child_prefix@, false, set_of(visited@), cfuel);
                whole.0 == lines_view(lines@).subrange(start.len() as int, lines@.len() as int) + rest.0
                    && whole.1 == rest.1
            }),
        decreases n_children - i,
    {
        let child = children[i];
        let ghost vis_b = visited@;
        let ghost lines_b = lines_view(lines@);
        proof {
            lemma_count_le_len(visited@);
        }
        walk(
            g,
            child,
            &child_prefix,
            i + 1 == n_children,
            false,
            visited,
            lines,
            vulnerable_names,
            reachable_vulnerable_names,
            Ghost(cfuel),
        );
        proof {
            lemma_count_mono(vis_b, visited@);
            let r = walk_node(*g, vn, rn, child, child_prefix@, i + 1 == n_children, false, set_of(vis_b), cfuel);
            assert(lines_view(lines@) == lines_b + r.0);
            assert(lines_view(lines@).subrange(0, start.len() as int) =~= lines_b.subrange(0, start.len() as int));
            assert(lines_view(lines@).subrange(start.len() as int, lines@.len() as int) =~= lines_b.subrange(
                start.len() as int,
                lines_b.len() as int,
            ) + r.0);
        }
        i = i + 1;
    }
    proof {
        assert(lines_view(lines@) =~= start + lines_view(lines@).subrange(start.len() as int, lines@.len() as int));
        assert(start =~= lines0 + seq![lv]);
        assert(child_prefix@ == ancestor_prefix@ + child_pad(is_root, is_last));
        assert(walk_node(*g, vn, rn, idx, ancestor_prefix@, is_last, is_root, set_of(vis0), fuel) == (
        seq![lv] + whole.0, whole.1));
        assert(lines_view(lines@) =~= lines0 + (seq![lv] + whole.0));
    }
}

/// Renders the whole graph as a tree: top-level packages by name (the
/// nodes that no edge enters, or every node if a non-empty graph has none),
/// each expanded depth-first with its dependencies ordered by status rank
/// and then by name; a package met again after its first expansion becomes
/// a repeat leaf.
pub fn build_tree(
    graph: &DepGraph,
    vulnerable_names: &Vec<String>,
    reachable_vulnerable_names: &Vec<String>,
) -> (lines: Vec<TreeLine>)
    ensures
        lines_view(lines@) == tree_lines(*graph, views(vulnerable_names@), views(reachable_vulnerable_names@)),
        repeats_marked(lines_view(lines@)),
{
    let ghost vn = views(vulnerable_names@);
    let ghost rn = views(reachable_vulnerable_names@);
    let n = graph_node_count(graph);
    let roots = ordered_roots(graph);
    let mut visited: Vec<bool> = Vec::new();
    let mut k: usize = 0;
    while k < n
        invariant
            k <= n,
            visited@.len() == k,
            forall|v: int| 0 <= v < k ==> !visited@[v],
        decreases n - k,
    {
        visited.push(false);
        k = k + 1;
    }
    let mut lines: Vec<TreeLine> = Vec::new();
    let ghost fuel = (n + 1) as nat;
    let ghost whole = walk_list(*graph, vn, rn, roots@, 0, Seq::empty(), true, set_of(visited@), fuel);
    proof {
        assert(set_of(visited@) =~= Set::<usize>::empty());
        assert forall|v: usize| (v as int) < visited@.len() implies (visited@[v as int] <==> #[trigger] shown(
            lines_view(lines@),
            v,
        )) by {}
        assert(lines_view(lines@) =~= Seq::<TreeLineView>::empty());
    }
    let empty_prefix = String::new();
    let n_roots = roots.len();
    let mut i: usize = 0;
    while i < n_roots
        invariant
            i <= n_roots,
            n_roots == roots@.len(),
            roots@ == root_order(*graph),
            forall|k: int| 0 <= k < roots@.len() ==> (#[trigger] roots@[k]) < n,
            n == graph_nodes(*graph).len(),
            vn == views(vulnerable_names@),
            rn == views(reachable_vulnerable_names@),
            fuel == n + 1,
            empty_prefix@ == Seq::<char>::empty(),
            visited@.len() == n,
            repeats_marked(lines_view(lines@)),
            tracks(visited@, lines_view(lines@)),
            ({
                let rest = walk_list(*graph, vn, rn, roots@, i as nat, Seq::empty(), true, set_of(visited@), fuel);
                whole.0 == lines_view(lines@) + rest.0
            }),
        decreases n_roots - i,
    {
        let ghost lines_b = lines_view(lines@);
        let ghost vis_b = visited@;
        proof {
            lemma_count_le_len(visited@);
        }
        walk(
            graph,
            roots[i],
            &empty_prefix,
            i + 1 == n_roots,
            true,
            &mut visited,
            &mut lines,
            vulnerable_names,
            reachable_vulnerable_names,
            Ghost(fuel),
        );
        proof {
            let r = walk_node(*graph, vn, rn, roots@[i as int], Seq::empty(), i + 1 == n_roots, true, set_of(vis_b), fuel);
            assert(lines_view(lines@) == lines_b + r.0);
            assert(lines_b + r.0 + walk_list(*graph, vn, rn, roots@, (i + 1) as nat, Seq::empty(), true, r.1, fuel).0
                =~= lines_b + (r.0 + walk_list(*graph, vn, rn, roots@, (i + 1) as nat, Seq::empty(), true, r.1, fuel).0));
        }
        i = i + 1;
    }
    proof {
        assert(lines_view(lines@) =~= whole.0);
    }
    lines
}

/// Whether `s` is in the order of [`key_le`].
pub open spec fn keys_sorted(s: Seq<SortKey>) -> bool {
    forall|i: int, j: int| 0 <= i < j < s.len() ==> key_le(#[trigger] s[i], #[trigger] s[j])
}

proof fn lemma_key_le_total(a: SortKey, b: SortKey)
    ensures
        key_le(a, b) || key_le(b, a),
{
    lemma_lex_le_total(a.name, b.name);
}

proof fn lemma_key_le_transitive(a: SortKey, b: SortKey, c: SortKey)
    requires
        key_le(a, b),
        key_le(b, c),
    ensures
        key_le(a, c),
{
    if a.rank == b.rank && b.rank == c.rank {
        lemma_lex_le_transitive(a.name, b.name, c.name);
    }
}

proof fn lemma_insert_by_key(s: Seq<SortKey>, x: SortKey)
    requires
        keys_sorted(s),
    ensures
        keys_sorted(insert_by_key(s, x)),
        insert_by_key(s, x).to_multiset() == s.to_multiset().insert(x),
    decreases s.len(),
{
    broadcast use vstd::seq_lib::group_to_multiset_ensures;
    if s.len() == 0 {
        assert(seq![x] =~= Seq::<SortKey>::empty().push(x));
    } else if key_le(s.last(), x) {
        let r = s.push(x);
        assert forall|i: int, j: int| 0 <= i < j < r.len() implies key_le(#[trigger] r[i], #[trigger] r[j]) by {
            if j == s.len() && i < s.len() - 1 {
                lemma_key_le_transitive(s[i], s.last(), x);
            }
        }
    } else {
        let d = s.drop_last();
        let t = insert_by_key(d, x);
        assert(keys_sorted(d));
        lemma_insert_by_key(d, x);
        lemma_key_le_total(s.last(), x);
        let r = t.push(s.last());
        assert forall|i: int, j: int| 0 <= i < j < r.len() implies key_le(#[trigger] r[i], #[trigger] r[j]) by {
            if j == t.len() {
                let y = t[i];
                assert(t.contains(y));
                assert(t.to_multiset().count(y) > 0);
                if y != x {
                    assert(d.to_multiset().count(y) > 0);
                    assert(d.contains(y));
                    let k = choose|k: int| 0 <= k < d.len() && d[k] == y;
                    assert(s[k] == y);
                }
            }
        }
        assert(s =~= d.push(s.last()));
        assert(r.to_multiset() =~= s.to_multiset().insert(x));
    }
}

/// The order in which the tree lists a package's dependencies: by status
/// rank (reachable vulnerable, then unreachable vulnerable, then safe),
/// then by name; every dependency is listed, none twice more than it
/// occurs.
pub proof fn law_sort_by_key(s: Seq<SortKey>)
    ensures
        keys_sorted(sort_by_key(s)),
        sort_by_key(s).to_multiset() == s.to_multiset(),
    decreases s.len(),
{
    broadcast use vstd::seq_lib::group_to_multiset_ensures;
    if s.len() > 0 {
        law_sort_by_key(s.drop_last());
        lemma_insert_by_key(sort_by_key(s.drop_last()), s.last());
        assert(s =~= s.drop_last().push(s.last()));
    }
}

/// The children of a package in the tree come ordered by status rank and
/// then by name, and they are exactly its dependencies.
pub proof fn law_sibling_order(g: DepGraph, vulnerable: Seq<Seq<char>>, reachable: Seq<Seq<char>>, i: usize)
    ensures
        ({
            let keys = out_nbrs(g, i).map_values(|c: usize| child_key(g, vulnerable, reachable, c));
            &&& keys_sorted(sort_by_key(keys))
            &&& sort_by_key(keys).to_multiset() == keys.to_multiset()
            &&& sorted_children(g, vulnerable, reachable, i) == sort_by_key(keys).map_values(|k: SortKey| k.node)
        }),
{
    law_sort_by_key(out_nbrs(g, i).map_values(|c: usize| child_key(g, vulnerable, reachable, c)));
}

} // verus!
