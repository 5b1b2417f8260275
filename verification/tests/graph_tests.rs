use ast_line_core::graph::KnowledgeGraph;
use ast_line_core::types::{GraphNode, GraphRelationship, NodeKind, RelationshipKind};

fn file_node(id: &str, path: &str) -> GraphNode {
    GraphNode::new(id, NodeKind::Function, id).with_property("filePath", path)
}

#[test]
fn added_node_is_found_and_first_wins() {
    let mut g = KnowledgeGraph::new();
    g.add_node(GraphNode::new("a", NodeKind::Function, "first"));
    g.add_node(GraphNode::new("a", NodeKind::Class, "second"));
    assert_eq!(g.node_count(), 1);
    let n = g.get_node("a").unwrap();
    assert_eq!(n.name, "first");
    assert_eq!(n.kind, NodeKind::Function);
    assert!(g.get_node("b").is_none());
    assert!(g.contains_node("a"));
}

#[test]
fn added_relationship_first_wins() {
    let mut g = KnowledgeGraph::new();
    g.add_relationship(GraphRelationship::new("r", RelationshipKind::Calls, "a", "b"));
    g.add_relationship(GraphRelationship::new("r", RelationshipKind::Uses, "x", "y"));
    assert_eq!(g.relationship_count(), 1);
    assert_eq!(g.relationships()[0].kind, RelationshipKind::Calls);
}

#[test]
fn remove_node_drops_incident_relationships() {
    let mut g = KnowledgeGraph::new();
    g.add_node(GraphNode::new("a", NodeKind::Function, "a"));
    g.add_node(GraphNode::new("b", NodeKind::Function, "b"));
    g.add_node(GraphNode::new("c", NodeKind::Function, "c"));
    g.add_relationship(GraphRelationship::new("ab", RelationshipKind::Calls, "a", "b"));
    g.add_relationship(GraphRelationship::new("bc", RelationshipKind::Calls, "b", "c"));
    g.add_relationship(GraphRelationship::new("ca", RelationshipKind::Calls, "c", "a"));
    assert!(g.remove_node("b"));
    assert!(!g.remove_node("b"));
    assert_eq!(g.node_count(), 2);
    assert_eq!(g.relationship_count(), 1);
    assert_eq!(g.relationships()[0].id, "ca");
}

#[test]
fn remove_nodes_by_file_counts_and_cleans() {
    let mut g = KnowledgeGraph::new();
    g.add_node(file_node("x1", "src/x.rs"));
    g.add_node(file_node("x2", "src/x.rs"));
    g.add_node(file_node("y1", "src/y.rs"));
    g.add_node(GraphNode::new("free", NodeKind::Folder, "free"));
    g.add_relationship(GraphRelationship::new("r1", RelationshipKind::Calls, "y1", "x1"));
    g.add_relationship(GraphRelationship::new("r2", RelationshipKind::Calls, "y1", "free"));
    assert_eq!(g.remove_nodes_by_file("src/x.rs"), 2);
    assert_eq!(g.node_count(), 2);
    assert!(g.get_node("x1").is_none());
    assert!(g.get_node("y1").is_some());
    assert_eq!(g.relationship_count(), 1);
    assert_eq!(g.relationships()[0].id, "r2");
    assert_eq!(g.remove_nodes_by_file("src/none.rs"), 0);
}

#[test]
fn file_path_reads_the_property() {
    let n = file_node("x", "src/x.rs");
    assert_eq!(n.file_path().map(|s| s.as_str()), Some("src/x.rs"));
    let m = GraphNode::new("y", NodeKind::File, "y");
    assert!(m.file_path().is_none());
    let n2 = n.with_property("filePath", "src/z.rs");
    assert_eq!(n2.file_path().map(|s| s.as_str()), Some("src/z.rs"));
    assert_eq!(n2.properties.len(), 1);
}

#[test]
fn nodes_of_kind_and_outgoing_filter_in_order() {
    let mut g = KnowledgeGraph::new();
    g.add_node(GraphNode::new("p1", NodeKind::Process, "p1"));
    g.add_node(GraphNode::new("f", NodeKind::Function, "f"));
    g.add_node(GraphNode::new("p2", NodeKind::Process, "p2"));
    let ps: Vec<&str> = g.nodes_of_kind(NodeKind::Process).iter().map(|n| n.id.as_str()).collect();
    assert_eq!(ps, vec!["p1", "p2"]);
    g.add_relationship(GraphRelationship::new("r1", RelationshipKind::Calls, "f", "p1"));
    g.add_relationship(GraphRelationship::new("r2", RelationshipKind::Uses, "f", "p2"));
    g.add_relationship(GraphRelationship::new("r3", RelationshipKind::Calls, "p1", "p2"));
    g.add_relationship(GraphRelationship::new("r4", RelationshipKind::Calls, "f", "p2"));
    let out: Vec<&str> = g.outgoing("f", RelationshipKind::Calls).iter().map(|r| r.id.as_str()).collect();
    assert_eq!(out, vec!["r1", "r4"]);
}
