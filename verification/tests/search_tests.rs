use ast_line_core::search::split_words;
use ast_line_core::graph::KnowledgeGraph;
use ast_line_core::grep::{find_bytes, grep_content, split_lines};
use ast_line_core::search::{index_graph, tokenize};
use ast_line_core::types::{GraphNode, NodeKind};

#[test]
fn tokenize_lowers_splits_and_drops_short_pieces() {
    assert_eq!(tokenize("Hello World foo_bar a"), vec!["hello", "world", "foo_bar"]);
    assert_eq!(tokenize("ABC-def"), vec!["abc", "def"]);
    assert_eq!(tokenize("x y z"), Vec::<String>::new());
    assert_eq!(tokenize(""), Vec::<String>::new());
    assert_eq!(tokenize("src/main.rs"), vec!["src", "main", "rs"]);
}

#[test]
fn tokenize_counts_bytes_not_characters() {
    assert_eq!(tokenize("é x"), vec!["é"]);
    assert_eq!(tokenize("Éa"), vec!["éa"]);
}

#[test]
fn terms_are_word_characters_of_more_than_one_byte() {
    for text in ["Hello, World!", "a_b c-d e.f", "MixedCase123 x"] {
        for t in tokenize(text) {
            assert!(t.len() > 1);
            assert!(t.chars().all(|c| c.is_alphanumeric() || c == '_'));
        }
    }
}

fn sample_graph() -> KnowledgeGraph {
    let mut g = KnowledgeGraph::new();
    g.add_node(GraphNode::new("n1", NodeKind::Function, "parse_file").with_property("filePath", "src/parse.rs"));
    g.add_node(GraphNode::new("n2", NodeKind::Function, "ParseTree"));
    g.add_node(GraphNode::new("n3", NodeKind::Class, "Widget").with_property("filePath", "src/widget.rs"));
    g
}

#[test]
fn index_graph_builds_documents_and_frequencies() {
    let g = sample_graph();
    let index = index_graph(&g);
    assert_eq!(index.n, 3);
    assert_eq!(index.docs.len(), 3);
    assert_eq!(index.docs[0].node_id, "n1");
    assert_eq!(index.docs[0].snippet, "parse_file src/parse.rs");
    assert_eq!(index.docs[0].terms, vec!["parse_file", "src", "parse", "rs"]);
    assert_eq!(index.docs[1].snippet, "ParseTree");
    assert_eq!(index.document_frequency(&"src".to_string()), 2);
    assert_eq!(index.document_frequency(&"parsetree".to_string()), 1);
    assert_eq!(index.document_frequency(&"missing".to_string()), 0);
    assert_eq!(index.docs[0].term_frequency(&"parse".to_string()), 1);
    assert_eq!(index.docs[0].term_frequency(&"src".to_string()), 1);
    assert_eq!(index.docs[2].term_frequency(&"parse".to_string()), 0);
    for (term, count) in &index.df {
        assert!(*count <= index.n);
        assert_eq!(index.df.iter().filter(|(t, _)| t == term).count(), 1);
    }
}

#[test]
fn lines_follow_str_lines() {
    assert_eq!(split_lines("a\nb\r\nc"), vec!["a", "b", "c"]);
    assert_eq!(split_lines("a\n"), vec!["a"]);
    assert_eq!(split_lines(""), Vec::<String>::new());
    assert_eq!(split_lines("\n\n"), vec!["", ""]);
    assert_eq!(split_lines("x\r"), vec!["x\r"]);
    let text = "one\r\ntwo\n\nthree\r";
    let expected: Vec<String> = text.lines().map(|l| l.to_string()).collect();
    assert_eq!(split_lines(text), expected);
}

#[test]
fn find_bytes_reports_the_first_occurrence() {
    assert_eq!(find_bytes(b"abcabc", b"bc"), Some(1));
    assert_eq!(find_bytes(b"abc", b"x"), None);
    assert_eq!(find_bytes(b"abc", b""), Some(0));
    assert_eq!(find_bytes(b"ab", b"abc"), None);
    assert_eq!(find_bytes(b"aaa", b"aa"), Some(0));
}

#[test]
fn grep_content_finds_lines_and_offsets() {
    let content = "fn main() {\n    let Foo = 1;\n}\nfoo again foo\n";
    let hits = grep_content("src/main.rs", content, "foo", true);
    assert_eq!(hits.len(), 2);
    assert_eq!(hits[0].file_path, "src/main.rs");
    assert_eq!(hits[0].line_number, 2);
    assert_eq!(hits[0].line_content, "    let Foo = 1;");
    assert_eq!(hits[0].match_start, 8);
    assert_eq!(hits[0].match_end, 11);
    assert_eq!(hits[1].line_number, 4);
    assert_eq!(hits[1].match_start, 0);
    let exact = grep_content("src/main.rs", content, "Foo", false);
    assert_eq!(exact.len(), 1);
    assert_eq!(exact[0].line_number, 2);
    assert!(grep_content("x", content, "zzz", true).is_empty());
}

#[test]
fn grep_offsets_are_bytes() {
    let hits = grep_content("f", "héllo wörld\n", "wö", false);
    assert_eq!(hits.len(), 1);
    assert_eq!(hits[0].match_start, 7);
    assert_eq!(hits[0].match_end, 10);
}

#[test]
fn split_words_keeps_pieces_of_two_bytes_or_more() {
    assert_eq!(split_words("abc de f_g h"), vec!["abc", "de", "f_g"]);
    assert_eq!(split_words("UPPER stays"), vec!["UPPER", "stays"]);
}

#[test]
fn every_recorded_term_occurs_in_some_document() {
    let index = index_graph(&sample_graph());
    assert!(!index.df.is_empty());
    for (term, count) in &index.df {
        assert!(*count > 0);
        let holders = index.docs.iter().filter(|d| d.terms.contains(term)).count();
        assert_eq!(holders, *count);
    }
}
