use ast_line_core::parse::extract_rust_symbols;
use ast_line_core::parse::text_in;
use ast_line_core::parse::add_captured;
use ast_line_core::communities::{detect_components, CommunitiesPhase};
use ast_line_core::config::{always_ignore, override_globs};
use ast_line_core::cross_file::CrossFilePhase;
use ast_line_core::graph::KnowledgeGraph;
use ast_line_core::parse::{extract_symbols, is_parseable, kind_str, ParsePhase};
use ast_line_core::pipeline::{done_report, final_stats, persisting_report, PipelineOptions};
use ast_line_core::scan::{admit_files, normalize_separators, ScanPhase, ScannedFile, MAX_FILE_SIZE};
use ast_line_core::structure::{process_structure, StructurePhase};
use ast_line_core::types::{GraphNode, GraphRelationship, NodeKind, PipelinePhase, RelationshipKind};

fn scanned(paths: &[&str]) -> Vec<ScannedFile> {
    paths.iter().map(|p| ScannedFile { path: p.to_string(), size: 10 }).collect()
}

#[test]
fn structure_builds_files_folders_and_contains() {
    let mut g = KnowledgeGraph::new();
    process_structure(&mut g, &vec!["src/main.rs".to_string(), "src/lib.rs".to_string(), "README.md".to_string()]);
    let ids: Vec<&str> = g.nodes().iter().map(|n| n.id.as_str()).collect();
    assert!(ids.contains(&"file:src/main.rs"));
    assert!(ids.contains(&"file:src/lib.rs"));
    assert!(ids.contains(&"file:README.md"));
    assert!(ids.contains(&"folder:src"));
    assert!(ids.contains(&"folder:/"));
    assert_eq!(g.node_count(), 5);
    let main = g.get_node("file:src/main.rs").unwrap();
    assert_eq!(main.name, "main.rs");
    assert_eq!(main.kind, NodeKind::File);
    assert_eq!(main.file_path().map(|s| s.as_str()), Some("src/main.rs"));
    let folder = g.get_node("folder:src").unwrap();
    assert_eq!(folder.name, "src");
    let rels: Vec<&str> = g.relationships().iter().map(|r| r.id.as_str()).collect();
    assert!(rels.contains(&"contains:folder:src:file:src/main.rs"));
    assert!(rels.contains(&"contains:folder:/:folder:src"));
    assert!(rels.contains(&"contains:folder:/:file:README.md"));
    assert_eq!(g.relationship_count(), 4);
}

#[test]
fn nested_folders_are_named_by_their_last_segment() {
    let mut g = KnowledgeGraph::new();
    process_structure(&mut g, &vec!["a/b/c.txt".to_string()]);
    assert_eq!(g.get_node("folder:a/b").unwrap().name, "b");
    assert_eq!(g.get_node("folder:a").unwrap().name, "a");
    assert!(g.relationships().iter().any(|r| r.source_id == "folder:a" && r.target_id == "folder:a/b"));
}

#[test]
fn scan_and_structure_phases_report() {
    let mut g = KnowledgeGraph::new();
    let mut progress = Vec::new();
    progress.push(ScanPhase::opening_report());
    let out = ScanPhase::execute(scanned(&["a.rs", "b/c.py"]), &g, &mut progress);
    assert_eq!(out.total_files, 2);
    assert_eq!(out.all_paths, vec!["a.rs".to_string(), "b/c.py".to_string()]);
    assert_eq!(progress.len(), 2);
    assert_eq!(progress[0].percent, 0);
    assert_eq!(progress[0].message, "Scanning repository...");
    assert_eq!(progress[1].percent, 15);
    assert_eq!(progress[1].message, "Repository scanned successfully");
    assert_eq!(progress[1].stats.unwrap().files_processed, 2);
    let st = StructurePhase::execute(out, &mut g, &mut progress);
    assert_eq!(progress.len(), 4);
    assert_eq!(progress[2].phase, PipelinePhase::Structure);
    assert_eq!(progress[3].percent, 20);
    assert_eq!(progress[3].stats.unwrap().nodes_created, g.node_count());
    assert_eq!(st.all_path_set.len(), 2);
}

#[test]
fn walk_report_carries_the_file() {
    let r = ScanPhase::walk_report(3, 10, "src/x.rs", 0, 5);
    assert_eq!(r.detail.as_deref(), Some("src/x.rs"));
    assert_eq!(r.percent, 5);
    assert_eq!(r.stats.unwrap().files_processed, 3);
    assert_eq!(r.stats.unwrap().total_files, 10);
}

#[test]
fn separators_become_slashes() {
    assert_eq!(normalize_separators("a\\b\\c.rs"), "a/b/c.rs");
    assert_eq!(normalize_separators("plain/path"), "plain/path");
}

#[test]
fn admit_files_keeps_small_readable_files() {
    let cands = vec![
        ("a".to_string(), Some(10u64)),
        ("big".to_string(), Some(MAX_FILE_SIZE + 1)),
        ("edge".to_string(), Some(MAX_FILE_SIZE)),
        ("gone".to_string(), None),
    ];
    let (files, skipped) = admit_files(cands);
    let paths: Vec<&str> = files.iter().map(|f| f.path.as_str()).collect();
    assert_eq!(paths, vec!["a", "edge"]);
    assert_eq!(skipped, 1);
    assert_eq!(MAX_FILE_SIZE, 524288);
}

#[test]
fn parseable_extensions_and_kind_labels() {
    assert!(is_parseable("src/main.rs"));
    assert!(is_parseable("web/app.tsx"));
    assert!(is_parseable("tool.py"));
    assert!(!is_parseable("README.md"));
    assert!(!is_parseable("Makefile"));
    assert_eq!(kind_str(NodeKind::Function), "fn");
    assert_eq!(kind_str(NodeKind::TypeAlias), "type");
    assert_eq!(kind_str(NodeKind::Folder), "sym");
}

#[test]
fn rust_symbols_come_from_the_syntax_tree() {
    let mut g = KnowledgeGraph::new();
    let src = "fn main() {}\nstruct Point { x: i32 }\nenum Color { Red }\ntrait Shape {}\nimpl Shape for Point {}\n";
    extract_symbols(&mut g, "src/main.rs", src);
    for id in [
        "sym:src/main.rs:fn:main",
        "sym:src/main.rs:struct:Point",
        "sym:src/main.rs:enum:Color",
        "sym:src/main.rs:trait:Shape",
        "sym:src/main.rs:impl:Point",
    ] {
        assert!(g.get_node(id).is_some(), "missing {id}");
    }
    assert!(g
        .relationships()
        .iter()
        .any(|r| r.source_id == "file:src/main.rs" && r.target_id == "sym:src/main.rs:fn:main" && r.kind == RelationshipKind::Contains));
}

#[test]
fn pattern_symbols_for_typescript_and_python() {
    let mut g = KnowledgeGraph::new();
    extract_symbols(&mut g, "a.ts", "export function run() {}\nclass Box {}\ninterface Shape {}\ntype Id = string;\nenum E { A }\n");
    assert!(g.get_node("sym:a.ts:fn:run").is_some());
    assert!(g.get_node("sym:a.ts:class:Box").is_some());
    assert!(g.get_node("sym:a.ts:interface:Shape").is_some());
    assert!(g.get_node("sym:a.ts:type:Id").is_some());
    assert!(g.get_node("sym:a.ts:enum:E").is_some());
    extract_symbols(&mut g, "b.py", "def go():\n    pass\nclass K:\n    pass\n");
    assert!(g.get_node("sym:b.py:fn:go").is_some());
    assert!(g.get_node("sym:b.py:class:K").is_some());
    let before = g.node_count();
    extract_symbols(&mut g, "c.md", "def nothing():");
    assert_eq!(g.node_count(), before);
}

#[test]
fn parse_phase_runs_each_parseable_file() {
    let mut g = KnowledgeGraph::new();
    let mut progress = Vec::new();
    let out = ScanPhase::execute(scanned(&["a.rs", "notes.md", "b.py"]), &g, &mut progress);
    let st = StructurePhase::execute(out, &mut g, &mut progress);
    let parseable = ParsePhase::parseable_files(&st.scanned_files);
    assert_eq!(parseable.len(), 2);
    let contents = vec![Some("fn alpha() {}".to_string()), None];
    let percents = vec![45u8, 70u8];
    let start = progress.len();
    let out = ParsePhase::execute(st, contents, percents, &mut g, &mut progress);
    assert_eq!(out.total_files, 3);
    assert!(g.get_node("sym:a.rs:fn:alpha").is_some());
    assert_eq!(progress.len(), start + 4);
    assert_eq!(progress[start].percent, 20);
    assert_eq!(progress[start + 1].detail.as_deref(), Some("a.rs"));
    assert_eq!(progress[start + 1].percent, 45);
    assert_eq!(progress[start + 2].detail.as_deref(), Some("b.py"));
    assert_eq!(progress[start + 3].message, "Symbol parsing complete");
    assert_eq!(progress[start + 3].percent, 70);
}

#[test]
fn cross_file_links_imports_to_files() {
    let mut g = KnowledgeGraph::new();
    g.add_node(GraphNode::new("file:x.ts", NodeKind::File, "x.ts").with_property("filePath", "x.ts"));
    g.add_node(GraphNode::new("imp1", NodeKind::Import, "y").with_property("filePath", "x.ts"));
    g.add_node(GraphNode::new("imp2", NodeKind::Import, "z").with_property("filePath", "missing.ts"));
    let mut progress = Vec::new();
    let out = ScanPhase::execute(Vec::new(), &g, &mut progress);
    let st = StructurePhase::execute(out, &mut g, &mut progress);
    let parsed = ParsePhase::execute(st, Vec::new(), Vec::new(), &mut g, &mut progress);
    let before = g.relationship_count();
    CrossFilePhase::execute(parsed, &mut g, &mut progress);
    assert_eq!(g.relationship_count(), before + 1);
    let r = g.relationships().iter().find(|r| r.kind == RelationshipKind::Imports).unwrap();
    assert_eq!(r.id, "imports:x.ts:imp1");
    assert_eq!(r.source_id, "file:x.ts");
    assert_eq!(r.target_id, "imp1");
    let n = progress.len();
    assert_eq!(progress[n - 1].percent, 80);
}

#[test]
fn components_and_communities() {
    let mut g = KnowledgeGraph::new();
    for id in ["a", "b", "c", "d", "e"] {
        g.add_node(GraphNode::new(id, NodeKind::Function, id));
    }
    g.add_relationship(GraphRelationship::new("ab", RelationshipKind::Calls, "a", "b"));
    g.add_relationship(GraphRelationship::new("cb", RelationshipKind::Calls, "c", "b"));
    g.add_relationship(GraphRelationship::new("de", RelationshipKind::Calls, "d", "e"));
    let comps = detect_components(&g);
    assert_eq!(comps.len(), 2);
    let mut sizes: Vec<usize> = comps.iter().map(|c| c.len()).collect();
    sizes.sort();
    assert_eq!(sizes, vec![2, 3]);
    let mut progress = Vec::new();
    CommunitiesPhase::execute(&mut g, &mut progress);
    let communities = g.nodes_of_kind(NodeKind::Community);
    assert_eq!(communities.len(), 2);
    assert!(communities.iter().all(|n| n.id.starts_with("community:") && n.id.len() == "community:".len() + 36));
    assert_ne!(communities[0].id, communities[1].id);
    assert_eq!(communities[0].name, "Community 0");
    let member_links = g.relationships().iter().filter(|r| r.kind == RelationshipKind::PartOfCommunity).count();
    assert_eq!(member_links, 5);
    assert_eq!(progress.len(), 2);
    assert_eq!(progress[1].percent, 90);
}

#[test]
fn singletons_form_no_community() {
    let mut g = KnowledgeGraph::new();
    g.add_node(GraphNode::new("lonely", NodeKind::Function, "lonely"));
    let mut progress = Vec::new();
    CommunitiesPhase::execute(&mut g, &mut progress);
    assert_eq!(g.nodes_of_kind(NodeKind::Community).len(), 0);
}

#[test]
fn ignore_list_and_override_globs() {
    let pats = always_ignore();
    assert_eq!(pats.len(), 49);
    assert_eq!(pats[0], ".git");
    assert!(pats.contains(&"node_modules"));
    assert!(pats.contains(&".gitnexus"));
    assert_eq!(pats[48], "*.map");
    let globs = override_globs();
    assert_eq!(globs.len(), 49);
    assert_eq!(globs[0], "!.git");
    assert_eq!(globs[48], "!*.map");
}

#[test]
fn pipeline_options_and_closing_reports() {
    let o = PipelineOptions::default();
    assert!(!o.force && !o.verbose);
    let mut g = KnowledgeGraph::new();
    g.add_node(GraphNode::new("a", NodeKind::File, "a"));
    let r = persisting_report(7, &g);
    assert_eq!(r.phase, PipelinePhase::Persisting);
    assert_eq!(r.percent, 90);
    assert_eq!(r.message, "Persisting knowledge graph...");
    let s = r.stats.unwrap();
    assert_eq!((s.files_processed, s.total_files, s.nodes_created, s.relationships_created), (7, 7, 1, 0));
    assert_eq!(final_stats(7, &g), s);
    let d = done_report(7, &g, "all done".to_string());
    assert_eq!(d.percent, 100);
    assert_eq!(d.phase, PipelinePhase::Done);
    assert_eq!(d.message, "all done");
}

#[test]
fn captured_names_become_symbols() {
    let mut g = KnowledgeGraph::new();
    let caps = vec![Some("alpha".to_string()), None, Some("beta".to_string()), Some("alpha".to_string())];
    add_captured(&mut g, "file:m.js", "m.js", NodeKind::Function, &caps);
    assert_eq!(g.node_count(), 2);
    assert!(g.get_node("sym:m.js:fn:alpha").is_some());
    assert!(g.get_node("sym:m.js:fn:beta").is_some());
    assert_eq!(g.relationship_count(), 2);
    assert!(g.relationships().iter().all(|r| r.source_id == "file:m.js"));
}

#[test]
fn components_are_disjoint_and_cover_every_node() {
    let mut g = KnowledgeGraph::new();
    for id in ["a", "b", "c", "d"] {
        g.add_node(GraphNode::new(id, NodeKind::Function, id));
    }
    g.add_relationship(GraphRelationship::new("ad", RelationshipKind::Calls, "a", "d"));
    g.add_relationship(GraphRelationship::new("bx", RelationshipKind::Calls, "b", "outside"));
    let comps = detect_components(&g);
    assert_eq!(comps.len(), 3);
    assert_eq!(comps[0], vec!["a".to_string(), "d".to_string()]);
    assert_eq!(comps[1], vec!["b".to_string(), "outside".to_string()]);
    assert_eq!(comps[2], vec!["c".to_string()]);
}

#[test]
fn text_in_reads_valid_byte_ranges() {
    let src = "héllo".as_bytes();
    assert_eq!(text_in(src, 0, 1), Some("h".to_string()));
    assert_eq!(text_in(src, 1, 3), Some("é".to_string()));
    assert_eq!(text_in(src, 1, 2), None);
    assert_eq!(text_in(src, 3, 2), None);
    assert_eq!(text_in(src, 0, 99), None);
}

#[test]
fn rust_extraction_adds_exactly_the_items() {
    let mut g = KnowledgeGraph::new();
    extract_rust_symbols(&mut g, "file:src/lib.rs", "src/lib.rs", "struct Foo;\nimpl Display for Foo {}\nfn bar() {}\n");
    assert_eq!(g.node_count(), 3);
    let s = g.get_node("sym:src/lib.rs:struct:Foo").unwrap();
    assert_eq!(s.kind, NodeKind::Struct);
    assert_eq!(s.file_path().map(|p| p.as_str()), Some("src/lib.rs"));
    let i = g.get_node("sym:src/lib.rs:impl:Foo").unwrap();
    assert_eq!(i.kind, NodeKind::Impl);
    assert_eq!(i.name, "Foo");
    assert_eq!(g.get_node("sym:src/lib.rs:fn:bar").unwrap().kind, NodeKind::Function);
    assert_eq!(g.relationship_count(), 3);
    assert!(g.relationships().iter().all(|r| r.source_id == "file:src/lib.rs" && r.kind == RelationshipKind::Contains));
}

#[test]
fn community_ids_carry_a_hyphenated_lowercase_uuid() {
    let mut g = KnowledgeGraph::new();
    g.add_node(GraphNode::new("x", NodeKind::Function, "x"));
    g.add_node(GraphNode::new("y", NodeKind::Function, "y"));
    g.add_relationship(GraphRelationship::new("xy", RelationshipKind::Calls, "x", "y"));
    let mut progress = Vec::new();
    CommunitiesPhase::execute(&mut g, &mut progress);
    let communities = g.nodes_of_kind(NodeKind::Community);
    assert_eq!(communities.len(), 1);
    let uuid = communities[0].id.strip_prefix("community:").unwrap();
    assert_eq!(uuid.len(), 36);
    for (i, ch) in uuid.chars().enumerate() {
        if i == 8 || i == 13 || i == 18 || i == 23 {
            assert_eq!(ch, '-');
        } else {
            assert!(ch.is_ascii_digit() || ('a'..='f').contains(&ch));
        }
    }
}

#[test]
fn structure_twice_equals_structure_once() {
    let paths = vec!["src/main.rs".to_string(), "src/util/io.rs".to_string(), "README.md".to_string()];
    let mut once = KnowledgeGraph::new();
    process_structure(&mut once, &paths);
    let mut twice = KnowledgeGraph::new();
    process_structure(&mut twice, &paths);
    process_structure(&mut twice, &paths);
    assert_eq!(once.node_count(), twice.node_count());
    assert_eq!(once.relationship_count(), twice.relationship_count());
    let a: Vec<&str> = once.nodes().iter().map(|n| n.id.as_str()).collect();
    let b: Vec<&str> = twice.nodes().iter().map(|n| n.id.as_str()).collect();
    assert_eq!(a, b);
    let ra: Vec<&str> = once.relationships().iter().map(|r| r.id.as_str()).collect();
    let rb: Vec<&str> = twice.relationships().iter().map(|r| r.id.as_str()).collect();
    assert_eq!(ra, rb);
}

#[test]
fn parse_file_reports_one_file_and_adds_its_symbols() {
    let mut g = KnowledgeGraph::new();
    let opening = ParsePhase::opening_report(3, &g);
    assert_eq!(opening.percent, 20);
    assert_eq!(opening.message, "Parsing symbols...");
    let unread = ParsePhase::parse_file(&mut g, "gone.rs", &None, 1, 3, 36);
    assert_eq!(g.node_count(), 0);
    assert_eq!(unread.percent, 36);
    assert_eq!(unread.detail.as_deref(), Some("gone.rs"));
    assert_eq!(unread.stats.unwrap().files_processed, 1);
    let report = ParsePhase::parse_file(&mut g, "a.py", &Some("def go():\n    pass\n".to_string()), 2, 3, 53);
    assert_eq!(g.node_count(), 1);
    assert!(g.get_node("sym:a.py:fn:go").is_some());
    assert_eq!(report.message, "Parsing symbols...");
    assert_eq!(report.stats.unwrap().nodes_created, 1);
    let closing = ParsePhase::closing_report(3, &g);
    assert_eq!(closing.percent, 70);
    assert_eq!(closing.message, "Symbol parsing complete");
    assert_eq!(closing.stats.unwrap().files_processed, 3);
}

#[test]
fn scan_run_reports_start_each_walked_file_and_end() {
    let g = KnowledgeGraph::new();
    let mut progress = Vec::new();
    let candidates = vec![
        ("a.rs".to_string(), Some(10u64)),
        ("big.bin".to_string(), Some(MAX_FILE_SIZE + 1)),
        ("gone.txt".to_string(), None),
        ("b/c.py".to_string(), Some(MAX_FILE_SIZE)),
    ];
    let (out, skipped) = ScanPhase::run(candidates, vec![4, 8, 11, 15], &g, &mut progress);
    assert_eq!(skipped, 1);
    assert_eq!(out.total_files, 2);
    assert_eq!(out.all_paths, vec!["a.rs".to_string(), "b/c.py".to_string()]);
    assert_eq!(progress.len(), 6);
    assert_eq!(progress[0].percent, 0);
    assert_eq!(progress[0].message, "Scanning repository...");
    assert!(progress[0].stats.is_none());
    assert_eq!(progress[2].percent, 8);
    assert_eq!(progress[2].detail.as_deref(), Some("big.bin"));
    let walked = progress[3].stats.unwrap();
    assert_eq!((walked.files_processed, walked.total_files), (3, 4));
    assert_eq!(progress[5].percent, 15);
    assert_eq!(progress[5].message, "Repository scanned successfully");
    let done = progress[5].stats.unwrap();
    assert_eq!((done.files_processed, done.total_files), (2, 2));
}
