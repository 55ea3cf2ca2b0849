use dagger::models::{DependencyKind, PackageId, PackageNode};
use dagger::tree_view::{build_tree, classify, status_rank, NodeStatus, TreeLine};
use petgraph::graph::DiGraph;

fn node(name: &str) -> PackageNode {
    PackageNode {
        id: PackageId { name: name.to_string(), version: "1.0.0".to_string() },
        dependency_kind: DependencyKind::Normal,
        source_used: true,
    }
}

#[test]
fn simple_chain_renders_with_correct_connectors() {
    let mut graph = DiGraph::new();
    let root = graph.add_node(node("root"));
    let child = graph.add_node(node("child"));
    let grandchild = graph.add_node(node("grandchild"));
    graph.add_edge(root, child, ());
    graph.add_edge(child, grandchild, ());

    let lines = build_tree(&graph, &Vec::new(), &Vec::new());

    assert_eq!(lines.len(), 3);
    assert_eq!(lines[0].prefix, "");
    assert_eq!(lines[0].name, "root");
    assert_eq!(lines[1].prefix, "└── ");
    assert_eq!(lines[1].name, "child");
    assert_eq!(lines[2].prefix, "    └── ");
    assert_eq!(lines[2].name, "grandchild");
}

#[test]
fn shared_dependency_expands_once_and_repeats_as_a_marked_leaf() {
    // root -> a -> shared
    // root -> b -> shared
    let mut graph = DiGraph::new();
    let root = graph.add_node(node("root"));
    let a = graph.add_node(node("a"));
    let b = graph.add_node(node("b"));
    let shared = graph.add_node(node("shared"));
    graph.add_edge(root, a, ());
    graph.add_edge(root, b, ());
    graph.add_edge(a, shared, ());
    graph.add_edge(b, shared, ());

    let lines = build_tree(&graph, &Vec::new(), &Vec::new());

    assert_eq!(lines.len(), 5);
    let shared_lines: Vec<&TreeLine> = lines.iter().filter(|l| l.name == "shared").collect();
    assert_eq!(shared_lines.len(), 2);
    assert!(!shared_lines[0].is_repeat, "first encounter should expand");
    assert!(shared_lines[1].is_repeat, "second encounter should be marked a repeat");
}

#[test]
fn vulnerable_reachable_siblings_sort_before_safe_siblings() {
    let mut graph = DiGraph::new();
    let root = graph.add_node(node("root"));
    let safe = graph.add_node(node("aaa-safe"));
    let vulnerable = graph.add_node(node("zzz-vulnerable"));
    graph.add_edge(root, safe, ());
    graph.add_edge(root, vulnerable, ());

    let reachable = vec!["zzz-vulnerable".to_string()];
    let lines = build_tree(&graph, &reachable, &reachable);

    assert_eq!(lines[1].name, "zzz-vulnerable");
    assert_eq!(lines[1].status, NodeStatus::VulnerableReachable);
    assert_eq!(lines[2].name, "aaa-safe");
}

#[test]
fn empty_graph_produces_no_lines_without_panicking() {
    let graph: DiGraph<PackageNode, ()> = DiGraph::new();
    let lines = build_tree(&graph, &Vec::new(), &Vec::new());
    assert!(lines.is_empty());
}

#[test]
fn unreachable_vulnerable_siblings_sit_between_reachable_and_safe() {
    let mut graph = DiGraph::new();
    let root = graph.add_node(node("root"));
    let safe = graph.add_node(node("a-safe"));
    let unreachable = graph.add_node(node("m-unreachable"));
    let reachable = graph.add_node(node("z-reachable"));
    graph.add_edge(root, safe, ());
    graph.add_edge(root, unreachable, ());
    graph.add_edge(root, reachable, ());

    let vulnerable = vec!["m-unreachable".to_string(), "z-reachable".to_string()];
    let reachable_names = vec!["z-reachable".to_string()];
    let lines = build_tree(&graph, &vulnerable, &reachable_names);

    let names: Vec<&str> = lines.iter().map(|l| l.name.as_str()).collect();
    assert_eq!(names, vec!["root", "z-reachable", "m-unreachable", "a-safe"]);
    assert_eq!(lines[1].prefix, "├── ");
    assert_eq!(lines[2].prefix, "├── ");
    assert_eq!(lines[3].prefix, "└── ");
    assert_eq!(lines[2].status, NodeStatus::VulnerableUnreachable);
    assert_eq!(lines[3].status, NodeStatus::Safe);
}

#[test]
fn equal_status_siblings_sort_by_name() {
    let mut graph = DiGraph::new();
    let root = graph.add_node(node("root"));
    let c = graph.add_node(node("charlie"));
    let a = graph.add_node(node("alpha"));
    let b = graph.add_node(node("bravo"));
    graph.add_edge(root, c, ());
    graph.add_edge(root, a, ());
    graph.add_edge(root, b, ());

    let lines = build_tree(&graph, &Vec::new(), &Vec::new());
    let names: Vec<&str> = lines.iter().map(|l| l.name.as_str()).collect();
    assert_eq!(names, vec!["root", "alpha", "bravo", "charlie"]);
    assert_eq!(lines[3].node, c.index());
}

#[test]
fn nested_prefixes_carry_the_parents_connector_column() {
    // root -> a -> x ; root -> b
    let mut graph = DiGraph::new();
    let root = graph.add_node(node("root"));
    let a = graph.add_node(node("a"));
    let b = graph.add_node(node("b"));
    let x = graph.add_node(node("x"));
    graph.add_edge(root, a, ());
    graph.add_edge(root, b, ());
    graph.add_edge(a, x, ());

    let lines = build_tree(&graph, &Vec::new(), &Vec::new());
    let rows: Vec<(String, String)> = lines.iter().map(|l| (l.prefix.clone(), l.name.clone())).collect();
    assert_eq!(
        rows,
        vec![
            ("".to_string(), "root".to_string()),
            ("├── ".to_string(), "a".to_string()),
            ("│   └── ".to_string(), "x".to_string()),
            ("└── ".to_string(), "b".to_string()),
        ]
    );
}

#[test]
fn a_graph_without_roots_lists_every_node_at_the_top() {
    // a <-> b: no node is without an incoming edge.
    let mut graph = DiGraph::new();
    let a = graph.add_node(node("b-node"));
    let b = graph.add_node(node("a-node"));
    graph.add_edge(a, b, ());
    graph.add_edge(b, a, ());

    let lines = build_tree(&graph, &Vec::new(), &Vec::new());
    assert_eq!(lines[0].name, "a-node");
    assert_eq!(lines[0].prefix, "");
    assert!(lines.iter().filter(|l| l.prefix.is_empty()).count() == 2);
    assert!(lines.iter().any(|l| l.is_repeat));
}

#[test]
fn classification_and_ranks() {
    let vulnerable = vec!["x".to_string(), "y".to_string()];
    let reachable = vec!["y".to_string()];
    assert_eq!(classify(&"y".to_string(), &vulnerable, &reachable), NodeStatus::VulnerableReachable);
    assert_eq!(classify(&"x".to_string(), &vulnerable, &reachable), NodeStatus::VulnerableUnreachable);
    assert_eq!(classify(&"z".to_string(), &vulnerable, &reachable), NodeStatus::Safe);
    assert_eq!(status_rank(NodeStatus::VulnerableReachable), 0);
    assert_eq!(status_rank(NodeStatus::VulnerableUnreachable), 1);
    assert_eq!(status_rank(NodeStatus::Safe), 2);
}
