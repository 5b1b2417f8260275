use ast_line_core::storage::{
    find_repo, first_git_root, get_git_root, get_global_registry_path, get_storage_paths, graph_from_lists, has_git_dir,
    make_repo_meta, registry_path_for, registry_path_in, with_registered, without_repo,
};
use ast_line_core::types::{GraphNode, GraphRelationship, NodeKind, RelationshipKind, RepoMeta, RepoStats};

fn meta(name: &str, path: &str) -> RepoMeta {
    RepoMeta {
        name: name.to_string(),
        path: format!("{path}/.gitnexus"),
        repo_path: path.to_string(),
        indexed_at: "2024-01-01T00:00:00Z".to_string(),
        last_commit: None,
        stats: RepoStats::zero(),
    }
}

#[test]
fn storage_paths_live_under_gitnexus() {
    let p = get_storage_paths("/work/repo");
    assert_eq!(p.gitnexus_dir, "/work/repo/.gitnexus");
    assert_eq!(p.lbug_dir, "/work/repo/.gitnexus/lbug");
    assert_eq!(p.meta_path, "/work/repo/.gitnexus/meta.json");
}

#[test]
fn registry_path_is_under_home() {
    assert_eq!(registry_path_in("/home/u"), "/home/u/.gitnexus/registry.json");
    if let Some(p) = get_global_registry_path() {
        assert!(p.ends_with(".gitnexus/registry.json"));
    }
}

#[test]
fn git_root_is_the_start_or_an_ancestor() {
    let start = "/definitely/not/a/real/place";
    if let Some(root) = get_git_root(start) {
        assert!(start.starts_with(root.as_str()));
    }
    let _ = has_git_dir("/definitely/not/a/real/place");
}

#[test]
fn repo_meta_records_the_index() {
    let m = make_repo_meta("demo", "/work/demo", 10, 20, 3, 2);
    assert_eq!(m.name, "demo");
    assert_eq!(m.path, "/work/demo/.gitnexus");
    assert_eq!(m.repo_path, "/work/demo");
    assert!(m.last_commit.is_none());
    assert_eq!(m.stats, RepoStats { files: 3, nodes: 10, edges: 20, communities: 2, processes: 0 });
    assert_eq!(m.indexed_at.len(), 20);
}

#[test]
fn register_replaces_entries_of_the_same_name() {
    let repos = vec![meta("a", "/a"), meta("b", "/b"), meta("a", "/a-old")];
    let r = with_registered(repos, &meta("a", "/a-new"));
    let names: Vec<&str> = r.iter().map(|m| m.name.as_str()).collect();
    assert_eq!(names, vec!["b", "a"]);
    assert_eq!(r[1].repo_path, "/a-new");
    let twice = with_registered(r, &meta("a", "/a-new"));
    assert_eq!(twice.len(), 2);
    assert_eq!(twice[1].repo_path, "/a-new");
}

#[test]
fn unregister_and_find() {
    let repos = vec![meta("a", "/a1"), meta("b", "/b"), meta("a", "/a2")];
    assert_eq!(find_repo(&repos, "a").unwrap().repo_path, "/a1");
    assert!(find_repo(&repos, "zz").is_none());
    let left = without_repo(repos, "a");
    assert_eq!(left.len(), 1);
    assert_eq!(left[0].name, "b");
    assert!(find_repo(&left, "a").is_none());
}

#[test]
fn graph_from_lists_keeps_the_first_of_an_id() {
    let nodes = vec![
        GraphNode::new("x", NodeKind::File, "first"),
        GraphNode::new("y", NodeKind::File, "y"),
        GraphNode::new("x", NodeKind::File, "second"),
    ];
    let rels = vec![
        GraphRelationship::new("r", RelationshipKind::Contains, "x", "y"),
        GraphRelationship::new("r", RelationshipKind::Calls, "y", "x"),
    ];
    let g = graph_from_lists(nodes, rels);
    assert_eq!(g.node_count(), 2);
    assert_eq!(g.get_node("x").unwrap().name, "first");
    assert_eq!(g.relationship_count(), 1);
    assert_eq!(g.relationships()[0].kind, RelationshipKind::Contains);
}

#[test]
fn git_dir_is_inside_the_directory() {
    assert_eq!(ast_line_core::storage::git_dir_of("/work/repo"), "/work/repo/.git");
}

#[test]
fn a_graph_reloads_unchanged() {
    let mut g = ast_line_core::graph::KnowledgeGraph::new();
    ast_line_core::structure::process_structure(&mut g, &vec!["a/b.rs".to_string(), "c.rs".to_string()]);
    let again = graph_from_lists(g.nodes().clone(), g.relationships().clone());
    let ids = |k: &ast_line_core::graph::KnowledgeGraph| k.nodes().iter().map(|n| n.id.clone()).collect::<Vec<_>>();
    let rel_ids = |k: &ast_line_core::graph::KnowledgeGraph| k.relationships().iter().map(|r| r.id.clone()).collect::<Vec<_>>();
    assert_eq!(ids(&again), ids(&g));
    assert_eq!(rel_ids(&again), rel_ids(&g));
}

#[test]
fn first_git_root_picks_the_nearest_probe() {
    assert_eq!(first_git_root(&vec![false, true, true]), Some(1));
    assert_eq!(first_git_root(&vec![true, false]), Some(0));
    assert_eq!(first_git_root(&vec![false, false, false]), None);
    assert_eq!(first_git_root(&vec![]), None);
}

#[test]
fn unregistering_twice_equals_once() {
    let repos = vec![meta("a", "/a1"), meta("b", "/b"), meta("c", "/c"), meta("a", "/a2")];
    let once = without_repo(repos, "a");
    let names_once: Vec<String> = once.iter().map(|r| r.name.clone()).collect();
    let twice = without_repo(once, "a");
    let names_twice: Vec<String> = twice.iter().map(|r| r.name.clone()).collect();
    assert_eq!(names_once, vec!["b".to_string(), "c".to_string()]);
    assert_eq!(names_twice, names_once);
}

#[test]
fn registry_path_exactly_when_home_is_known() {
    assert_eq!(registry_path_for(Some("/home/u".to_string())), Some("/home/u/.gitnexus/registry.json".to_string()));
    assert_eq!(registry_path_for(None), None);
}
