use ast_line_core::cli::{list_lines, progress_line, repo_line, AnalyzeCommand, IndexSummary, QueryCommand, StatusCommand};
use ast_line_core::graph::KnowledgeGraph;
use ast_line_core::mcp::{
    method_error, query_args, query_repo, route_method, route_tool, unknown_tool_error, McpMethod, McpTool,
    METHOD_NOT_FOUND, PARSE_ERROR, SERVER_ERROR,
};
use ast_line_core::server::{
    is_local_network, origin_allowed, symbol_matches, GrepParam, JobStatus, JobTable, QueryBody,
};
use ast_line_core::types::{GraphNode, NodeKind, PipelinePhase, RepoMeta, RepoStats};

fn meta(name: &str, path: &str, nodes: usize, edges: usize) -> RepoMeta {
    RepoMeta {
        name: name.to_string(),
        path: format!("{path}/.gitnexus"),
        repo_path: path.to_string(),
        indexed_at: "2024-01-01T00:00:00Z".to_string(),
        last_commit: None,
        stats: RepoStats { files: 0, nodes, edges, communities: 0, processes: 0 },
    }
}

#[test]
fn analyze_root_prefers_the_given_path_then_git_root() {
    let given = AnalyzeCommand::choose_root(Some("/x".to_string()), "/cwd", Some("/root".to_string()), false);
    assert_eq!(given, Ok("/x".to_string()));
    let git = AnalyzeCommand::choose_root(None, "/cwd", Some("/root".to_string()), false);
    assert_eq!(git, Ok("/root".to_string()));
    let skip = AnalyzeCommand::choose_root(None, "/cwd", None, true);
    assert_eq!(skip, Ok("/cwd".to_string()));
    let refused = AnalyzeCommand::choose_root(None, "/cwd", None, false);
    assert_eq!(refused, Err("No .git directory found. Use --skip-git to index a non-git folder.".to_string()));
}

#[test]
fn analyze_options_copy_the_flags() {
    let cmd = AnalyzeCommand { path: None, force: true, verbose: false, skip_git: false };
    let o = cmd.options();
    assert!(o.force && !o.verbose);
    let r = cmd.resolve_root(Some("/given".to_string()), "/cwd");
    assert_eq!(r, Ok("/given".to_string()));
}

#[test]
fn progress_and_repo_lines() {
    let p = ast_line_core::types::progress_report(PipelinePhase::Parse, 45, "Parsing symbols...", None, None);
    assert_eq!(progress_line(&p), "[45%] Parsing symbols...");
    let q = ast_line_core::types::progress_report(PipelinePhase::Done, 100, "done", None, None);
    assert_eq!(progress_line(&q), "[100%] done");
    assert_eq!(repo_line(&meta("demo", "/w/demo", 12, 0)), "demo — /w/demo (12 nodes, 0 edges)");
}

#[test]
fn list_lines_note_an_empty_registry() {
    assert_eq!(list_lines(&vec![]), vec!["No indexed repositories."]);
    let lines = list_lines(&vec![meta("a", "/a", 1, 2), meta("b", "/b", 3, 4)]);
    assert_eq!(lines, vec!["a — /a (1 nodes, 2 edges)", "b — /b (3 nodes, 4 edges)"]);
}

#[test]
fn query_command_resolves_its_repository() {
    let repos = vec![meta("a", "/a", 0, 0), meta("b", "/b", 0, 0)];
    let by_name = QueryCommand { query: "x".to_string(), name: Some("b".to_string()), limit: 20 };
    assert_eq!(by_name.repo_path(&repos, "/cwd"), Ok("/b".to_string()));
    let missing = QueryCommand { query: "x".to_string(), name: Some("zz".to_string()), limit: 20 };
    assert_eq!(missing.repo_path(&repos, "/cwd"), Err("Repository 'zz' not found".to_string()));
    let here = QueryCommand { query: "x".to_string(), name: None, limit: 20 };
    assert_eq!(here.repo_path(&repos, "/cwd"), Ok("/cwd".to_string()));
}

#[test]
fn status_lines_with_and_without_an_index() {
    let none = StatusCommand::report_lines(None);
    assert_eq!(none, vec!["This repository has not been indexed yet.", "Run `ast-line analyze` to build the knowledge graph."]);
    let full = StatusCommand::report_lines(Some(IndexSummary {
        indexed_at: Some("2024-05-01T10:00:00Z".to_string()),
        node_count: Some(42),
        relationship_count: Some(7),
    }));
    assert_eq!(full, vec!["Indexed at: 2024-05-01T10:00:00Z", "Nodes: 42", "Relationships: 7"]);
    let partial = StatusCommand::report_lines(Some(IndexSummary { indexed_at: None, node_count: None, relationship_count: None }));
    assert_eq!(partial, vec!["Indexed at: unknown", "Nodes: 0", "Relationships: 0"]);
}

#[test]
fn origins_on_private_networks_and_local_hosts() {
    assert!(is_local_network(b"http://192.168.1.20:3000"));
    assert!(is_local_network(b"http://10.0.0.1"));
    assert!(!is_local_network(b"http://172.16.0.1"));
    assert!(!is_local_network(b"https://10.0.0.1"));
    assert!(origin_allowed(b"http://localhost:5173"));
    assert!(origin_allowed(b"http://127.0.0.1:8080"));
    assert!(origin_allowed(b"https://gitnexus.vercel.app"));
    assert!(origin_allowed(b"http://10.1.2.3:80"));
    assert!(!origin_allowed(b"http://localhost"));
    assert!(!origin_allowed(b"https://example.com"));
}

#[test]
fn request_parameters_defaults() {
    let body = QueryBody { query: "q".to_string(), name: "n".to_string(), limit: None };
    assert_eq!(body.result_limit(), 20);
    let body = QueryBody { query: "q".to_string(), name: "n".to_string(), limit: Some(5) };
    assert_eq!(body.result_limit(), 5);
    let g = GrepParam { name: "n".to_string(), query: "q".to_string(), case_sensitive: false };
    assert!(g.ignore_case());
}

#[test]
fn symbol_search_ignores_case() {
    let mut g = KnowledgeGraph::new();
    g.add_node(GraphNode::new("1", NodeKind::Function, "ParseFile"));
    g.add_node(GraphNode::new("2", NodeKind::Function, "render"));
    g.add_node(GraphNode::new("3", NodeKind::Class, "FileParser"));
    let hits: Vec<&str> = symbol_matches(&g, "PARSE").iter().map(|n| n.id.as_str()).collect();
    assert_eq!(hits, vec!["1", "3"]);
    assert_eq!(symbol_matches(&g, "").len(), 3);
    assert_eq!(symbol_matches(&g, "zzz").len(), 0);
}

#[test]
fn job_status_labels_and_outcomes() {
    assert_eq!(JobStatus::Running.label(), "running");
    assert_eq!(JobStatus::Done.label(), "done");
    assert_eq!(JobStatus::Error("x".to_string()).label(), "error");
    assert_eq!(JobStatus::Cancelled.label(), "cancelled");
    assert!(matches!(JobStatus::finished(Ok(())), JobStatus::Done));
    match JobStatus::finished(Err("boom".to_string())) {
        JobStatus::Error(e) => assert_eq!(e, "boom"),
        other => panic!("unexpected {other:?}"),
    }
}

#[test]
fn job_table_tracks_jobs() {
    let mut t = JobTable::new();
    assert!(t.get("j1").is_none());
    t.insert("j1".to_string());
    t.insert("j2".to_string());
    assert!(matches!(t.get("j1").unwrap().status, JobStatus::Running));
    assert!(t.get("j1").unwrap().progress.is_none());
    let p = ast_line_core::types::progress_report(PipelinePhase::Parse, 30, "Parsing symbols...", None, None);
    t.record_progress("j1", p);
    assert_eq!(t.get("j1").unwrap().progress.as_ref().unwrap().percent, 30);
    assert!(t.cancel("j1"));
    assert!(matches!(t.get("j1").unwrap().status, JobStatus::Cancelled));
    assert_eq!(t.get("j1").unwrap().progress.as_ref().unwrap().percent, 30);
    assert!(matches!(t.get("j2").unwrap().status, JobStatus::Running));
    assert!(!t.cancel("nope"));
    t.set_status("j2", JobStatus::Done);
    assert!(matches!(t.get("j2").unwrap().status, JobStatus::Done));
    t.insert("j1".to_string());
    assert!(matches!(t.get("j1").unwrap().status, JobStatus::Running));
    assert!(t.get("j1").unwrap().progress.is_none());
}

#[test]
fn mcp_methods_and_errors() {
    assert_eq!(route_method("initialize"), McpMethod::Initialize);
    assert_eq!(route_method("tools/list"), McpMethod::ToolsList);
    assert_eq!(route_method("tools/call"), McpMethod::ToolsCall);
    assert_eq!(route_method("resources/list"), McpMethod::ResourcesList);
    assert_eq!(route_method("resources/read"), McpMethod::ResourcesRead);
    assert_eq!(route_method("ping"), McpMethod::Unknown);
    assert_eq!(method_error(McpMethod::ResourcesRead), Some((-32601, "resource not found".to_string())));
    assert_eq!(method_error(McpMethod::Unknown), Some((-32601, "Method not found".to_string())));
    assert_eq!(method_error(McpMethod::Initialize), None);
    assert_eq!((PARSE_ERROR, METHOD_NOT_FOUND, SERVER_ERROR), (-32700, -32601, -32000));
}

#[test]
fn mcp_tools_and_arguments() {
    assert_eq!(route_tool(Some("list_repos")), McpTool::ListRepos);
    assert_eq!(route_tool(Some("query")), McpTool::Query);
    assert_eq!(route_tool(Some("grep")), McpTool::Unknown);
    assert_eq!(route_tool(None), McpTool::Unknown);
    assert_eq!(unknown_tool_error(), (-32601, "unknown tool".to_string()));
    let a = query_args(Some("repo"), None, None);
    assert_eq!((a.name.as_str(), a.query.as_str(), a.limit), ("repo", "", 20));
    let b = query_args(None, Some("q"), Some(3));
    assert_eq!((b.name.as_str(), b.query.as_str(), b.limit), ("", "q", 3));
    let repos = vec![meta("a", "/a", 0, 0)];
    assert_eq!(query_repo(&repos, "a").unwrap().repo_path, "/a");
    let err = query_repo(&repos, "b").unwrap_err();
    assert_eq!(err, (-32000, "repo not found".to_string()));
}
