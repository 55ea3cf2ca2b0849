use dagger::graph::{locate_package, mark_source_usage, out_degrees};
use dagger::ingestion::{build_dependency_graph, CargoMetadata, MetadataDep, MetadataDepKind, MetadataPackage, ResolveNode};
use dagger::models::DependencyKind;
use petgraph::graph::NodeIndex;
use petgraph::Direction;

fn package(id: &str, name: &str, version: &str) -> MetadataPackage {
    MetadataPackage { id: id.to_string(), name: name.to_string(), version: version.to_string() }
}

fn dep(pkg: &str, kinds: Vec<MetadataDepKind>) -> MetadataDep {
    MetadataDep { pkg: pkg.to_string(), dep_kinds: kinds }
}

fn playground() -> CargoMetadata {
    CargoMetadata {
        packages: vec![
            package("app 0.1.0", "app", "0.1.0"),
            package("lru 0.12.5", "lru", "0.12.5"),
            package("hashbrown 0.15.0", "hashbrown", "0.15.0"),
            package("paste 1.0.15", "paste", "1.0.15"),
            package("cc 1.0.0", "cc", "1.0.0"),
        ],
        resolve: Some(vec![
            ResolveNode {
                id: "app 0.1.0".to_string(),
                deps: vec![
                    dep("lru 0.12.5", vec![MetadataDepKind::Normal]),
                    dep("paste 1.0.15", vec![MetadataDepKind::Development]),
                    dep("cc 1.0.0", vec![MetadataDepKind::Build]),
                    dep("missing 9.9.9", vec![MetadataDepKind::Normal]),
                ],
            },
            ResolveNode { id: "lru 0.12.5".to_string(), deps: vec![dep("hashbrown 0.15.0", vec![])] },
        ]),
    }
}

#[test]
fn one_node_per_package_and_one_edge_per_resolved_dependency() {
    let graph = build_dependency_graph(&playground());
    assert_eq!(graph.node_count(), 5);
    assert_eq!(graph.edge_count(), 4);
    let lru: Vec<_> = graph.node_weights().filter(|n| n.id.name == "lru").collect();
    assert_eq!(lru.len(), 1);
    assert_eq!(graph[NodeIndex::new(1)].id.version, "0.12.5");
    assert!(graph.contains_edge(NodeIndex::new(0), NodeIndex::new(1)));
    assert!(graph.contains_edge(NodeIndex::new(1), NodeIndex::new(2)));
    assert_eq!(graph.neighbors_directed(NodeIndex::new(0), Direction::Outgoing).count(), 3);
    assert!(graph.node_weights().all(|n| !n.source_used));
}

#[test]
fn dependency_kinds_come_from_the_edges_into_a_package() {
    let graph = build_dependency_graph(&playground());
    assert_eq!(graph[NodeIndex::new(0)].dependency_kind, DependencyKind::Normal);
    assert_eq!(graph[NodeIndex::new(1)].dependency_kind, DependencyKind::Normal);
    assert_eq!(graph[NodeIndex::new(2)].dependency_kind, DependencyKind::Normal);
    assert_eq!(graph[NodeIndex::new(3)].dependency_kind, DependencyKind::Dev);
    assert_eq!(graph[NodeIndex::new(4)].dependency_kind, DependencyKind::Build);
}

#[test]
fn without_a_resolve_there_are_no_edges() {
    let mut m = playground();
    m.resolve = None;
    let graph = build_dependency_graph(&m);
    assert_eq!(graph.node_count(), 5);
    assert_eq!(graph.edge_count(), 0);
}

#[test]
fn source_usage_marks_packages_by_crate_identifier() {
    let mut m = playground();
    m.packages.push(package("serde-json 1.0.0", "serde-json", "1.0.0"));
    let mut graph = build_dependency_graph(&m);
    mark_source_usage(&mut graph, &vec!["lru".to_string(), "serde_json".to_string()]);
    let used: Vec<&str> = graph.node_weights().filter(|n| n.source_used).map(|n| n.id.name.as_str()).collect();
    assert_eq!(used, vec!["lru", "serde-json"]);
    assert_eq!(locate_package(&graph, &"lru".to_string()), Some((1, true)));
    assert_eq!(locate_package(&graph, &"paste".to_string()), Some((3, false)));
    assert_eq!(locate_package(&graph, &"nope".to_string()), None);
    assert_eq!(out_degrees(&graph), vec![3, 1, 0, 0, 0, 0]);
}
