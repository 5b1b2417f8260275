//! The parse phase: symbols declared in source files become graph nodes,
//! each contained in the File node of its file.

use vstd::prelude::*;
use vstd::utf8::{decode_utf8, encode_utf8, valid_utf8};
use tree_sitter::Tree;
use crate::graph::{GraphView, KnowledgeGraph, view_add_node, view_add_rel};
use crate::communities::node_id_present;
use crate::cross_file::rel_id_present;
use crate::scan::ScannedFile;
use crate::structure::StructureOutput;
use crate::structure::{contains_rel_id, contains_view, file_node_id};
use crate::text::{opt_text, chars_of, concat2, find_last, last_index, lemma_last_index, push_str, same_text, string_from};
use crate::types::{
    GraphNode, GraphRelationship, NodeKind, NodeView, PipelinePhase, PipelineProgress, PipelineStats, RelationshipKind,
    file_path_key, file_path_key_string, is_report, progress_report, stats_of,
};

verus! {

/// What the parse phase hands on.
pub struct ParseOutput {
    pub scanned_files: Vec<ScannedFile>,
    pub all_paths: Vec<String>,
    pub total_files: usize,
}

/// The parse phase.
pub struct ParsePhase;

/// The text after the last `.` of a path (the whole path when it has none).
pub open spec fn extension(p: Seq<char>) -> Seq<char> {
    match last_index(p, '.') {
        Some(i) => p.subrange(i + 1, p.len() as int),
        None => p,
    }
}

/// The extensions whose files are searched for symbols.
pub open spec fn parseable_extension(e: Seq<char>) -> bool {
    e == "rs"@ || e == "ts"@ || e == "tsx"@ || e == "js"@ || e == "jsx"@ || e == "py"@
}

/// The extension of `path`.
pub fn extension_of(path: &str) -> (r: String)
    ensures
        r@ == extension(path@),
{
    let v = chars_of(path);
    proof {
        lemma_last_index(path@, '.');
        assert(v@.take(v@.len() as int) =~= v@);
    }
    match find_last(&v, v.len(), '.') {
        Some(i) => string_from(&v, i + 1, v.len()),
        None => {
            let r = string_from(&v, 0, v.len());
            assert(r@ =~= v@);
            r
        },
    }
}

/// Whether files at `path` are searched for symbols.
pub fn is_parseable(path: &str) -> (r: bool)
    ensures
        r == parseable_extension(extension(path@)),
{
    let e = extension_of(path);
    let e = e.as_str();
    same_text(e, "rs") || same_text(e, "ts") || same_text(e, "tsx") || same_text(e, "js")
        || same_text(e, "jsx") || same_text(e, "py")
}

/// The short label of a symbol kind used inside symbol ids.
pub open spec fn kind_label(kind: NodeKind) -> Seq<char> {
    match kind {
        NodeKind::Function => "fn"@,
        NodeKind::Class => "class"@,
        NodeKind::Struct => "struct"@,
        NodeKind::Enum => "enum"@,
        NodeKind::Trait => "trait"@,
        NodeKind::Impl => "impl"@,
        NodeKind::Interface => "interface"@,
        NodeKind::TypeAlias => "type"@,
        _ => "sym"@,
    }
}

/// The short label of a symbol kind used inside symbol ids.
pub fn kind_str(kind: NodeKind) -> (r: &'static str)
    ensures
        r@ == kind_label(kind),
{
    match kind {
        NodeKind::Function => "fn",
        NodeKind::Class => "class",
        NodeKind::Struct => "struct",
        NodeKind::Enum => "enum",
        NodeKind::Trait => "trait",
        NodeKind::Impl => "impl",
        NodeKind::Interface => "interface",
        NodeKind::TypeAlias => "type",
        _ => "sym",
    }
}

/// `sym:{file}:{kind label}:{name}`.
pub open spec fn symbol_id(fp: Seq<char>, kind: NodeKind, name: Seq<char>) -> Seq<char> {
    "sym:"@ + fp + ":"@ + kind_label(kind) + ":"@ + name
}

/// The node of a symbol: its kind and name, recording its file.
pub open spec fn symbol_view(fp: Seq<char>, kind: NodeKind, name: Seq<char>) -> NodeView {
    NodeView { id: symbol_id(fp, kind, name), kind, name, properties: seq![(file_path_key(), fp)] }
}

/// The graph after a symbol node is added, contained in `file_id`.
pub open spec fn with_symbol(g: GraphView, file_id: Seq<char>, fp: Seq<char>, kind: NodeKind, name: Seq<char>) -> GraphView {
    view_add_rel(view_add_node(g, symbol_view(fp, kind, name)), contains_view(file_id, symbol_id(fp, kind, name)))
}

/// Adds a symbol node of the file `file_path` (whose node id is `file_id`)
/// and a CONTAINS relationship from the file to it.
pub fn add_symbol(graph: &mut KnowledgeGraph, file_id: &str, file_path: &str, kind: NodeKind, name: &str)
    ensures
        final(graph).gview() == with_symbol(old(graph).gview(), file_id@, file_path@, kind, name@),
{
    let mut node_id = String::new();
    push_str(&mut node_id, "sym:");
    push_str(&mut node_id, file_path);
    push_str(&mut node_id, ":");
    push_str(&mut node_id, kind_str(kind));
    push_str(&mut node_id, ":");
    push_str(&mut node_id, name);
    assert(node_id@ =~= symbol_id(file_path@, kind, name@));
    let key = file_path_key_string();
    let node = GraphNode::new(node_id.as_str(), kind, name).with_property(key.as_str(), file_path);
    assert(node@.properties =~= seq![(file_path_key(), file_path@)]);
    graph.add_node(node);
    let rel_id = crate::text::concat4("contains:", file_id, ":", node_id.as_str());
    let rel = GraphRelationship::new(rel_id.as_str(), RelationshipKind::Contains, file_id, node_id.as_str());
    assert(rel@.properties =~= seq![]);
    assert(rel@ == contains_view(file_id@, symbol_id(file_path@, kind, name@)));
    graph.add_relationship(rel);
}

/// The graph after a symbol is added for every present name of `caps`, in
/// order.
pub open spec fn with_captured(
    g: GraphView,
    file_id: Seq<char>,
    fp: Seq<char>,
    kind: NodeKind,
    caps: Seq<Option<Seq<char>>>,
) -> GraphView
    decreases caps.len(),
{
    if caps.len() == 0 {
        g
    } else {
        let h = with_captured(g, file_id, fp, kind, caps.drop_last());
        match caps.last() {
            Some(name) => with_symbol(h, file_id, fp, kind, name),
            None => h,
        }
    }
}

/// What the `regex` crate finds for `pattern` in `text`: `None` when the
/// pattern does not compile, else, for each successive non-overlapping
/// match, the text of its first capture group if that group took part.
pub uninterp spec fn regex_group1_captures(pattern: Seq<char>, text: Seq<char>) -> Option<Seq<Option<Seq<char>>>>;

/// The plain value of a list of optional strings.
pub open spec fn opt_texts(v: Seq<Option<String>>) -> Seq<Option<Seq<char>>> {
    v.map_values(|o: Option<String>| match o { Some(s) => Some(s@), None => None })
}

/// `Regex::new(pattern)` and then `captures_iter(text)`, taking from every
/// match the text of capture group 1 (`Captures::get(1)`). The contract
/// claims that the result is what the `regex` crate computes for these two
/// arguments and nothing else; what that is is not spelled out here.
#[verifier::external_body]
fn regex_captures(pattern: &str, text: &str) -> (r: Option<Vec<Option<String>>>)
    ensures
        match r {
            Some(v) => regex_group1_captures(pattern@, text@) == Some(opt_texts(v@)),
            None => regex_group1_captures(pattern@, text@) is None,
        },
{
    match regex::Regex::new(pattern) {
        Ok(re) => Some(re.captures_iter(text).map(|c| c.get(1).map(|m| m.as_str().to_string())).collect()),
        Err(_) => None,
    }
}

/// The graph after the symbols that each pattern finds, pattern by pattern.
pub open spec fn with_pattern_symbols(
    g: GraphView,
    file_id: Seq<char>,
    fp: Seq<char>,
    content: Seq<char>,
    pats: Seq<(NodeKind, Seq<char>)>,
) -> GraphView
    decreases pats.len(),
{
    if pats.len() == 0 {
        g
    } else {
        let h = with_pattern_symbols(g, file_id, fp, content, pats.drop_last());
        match regex_group1_captures(pats.last().1, content) {
            Some(caps) => with_captured(h, file_id, fp, pats.last().0, caps),
            None => h,
        }
    }
}

/// Adds a symbol of kind `kind` for every present name among the captures
/// `caps` of a pattern, in order (see `with_captured`).
pub fn add_captured(graph: &mut KnowledgeGraph, file_id: &str, file_path: &str, kind: NodeKind, caps: &Vec<Option<String>>)
    ensures
        final(graph).gview() == with_captured(old(graph).gview(), file_id@, file_path@, kind, opt_texts(caps@)),
{
    let ghost all = opt_texts(caps@);
    let mut i: usize = 0;
    while i < caps.len()
        invariant
            0 <= i <= caps@.len(),
            all == opt_texts(caps@),
            graph.gview() == with_captured(old(graph).gview(), file_id@, file_path@, kind, all.take(i as int)),
        decreases caps@.len() - i,
    {
        proof {
            assert(all.take(i + 1).drop_last() =~= all.take(i as int));
        }
        match &caps[i] {
            Some(name) => {
                add_symbol(graph, file_id, file_path, kind, name.as_str());
            },
            None => {},
        }
        i = i + 1;
    }
    assert(all.take(caps@.len() as int) =~= all);
}

/// The patterns searched in files of an extension other than `rs`.
pub open spec fn patterns_for(ext: Seq<char>) -> Seq<(NodeKind, Seq<char>)> {
    if ext == "ts"@ || ext == "tsx"@ {
        seq![
            (NodeKind::Function, FUNCTION_PATTERN@),
            (NodeKind::Class, CLASS_PATTERN@),
            (NodeKind::Interface, INTERFACE_PATTERN@),
            (NodeKind::TypeAlias, TYPE_ALIAS_PATTERN@),
            (NodeKind::Enum, ENUM_PATTERN@),
        ]
    } else if ext == "js"@ || ext == "jsx"@ {
        seq![(NodeKind::Function, FUNCTION_PATTERN@), (NodeKind::Class, CLASS_PATTERN@)]
    } else if ext == "py"@ {
        seq![(NodeKind::Function, PY_DEF_PATTERN@), (NodeKind::Class, PY_CLASS_PATTERN@)]
    } else {
        seq![]
    }
}

pub const FUNCTION_PATTERN: &'static str = r"(?m)^\s*(?:export\s+)?(?:async\s+)?function\s+(\w+)";
pub const CLASS_PATTERN: &'static str = r"(?m)^\s*(?:export\s+)?class\s+(\w+)";
pub const INTERFACE_PATTERN: &'static str = r"(?m)^\s*(?:export\s+)?interface\s+(\w+)";
pub const TYPE_ALIAS_PATTERN: &'static str = r"(?m)^\s*(?:export\s+)?type\s+(\w+)\s*=";
pub const ENUM_PATTERN: &'static str = r"(?m)^\s*(?:export\s+)?enum\s+(\w+)";
pub const PY_DEF_PATTERN: &'static str = r"(?m)^\s*def\s+(\w+)";
pub const PY_CLASS_PATTERN: &'static str = r"(?m)^\s*class\s+(\w+)";

fn patterns_of(ext: &str) -> (r: Vec<(NodeKind, &'static str)>)
    ensures
        r@.len() == patterns_for(ext@).len(),
        forall|i: int| 0 <= i < r@.len() ==> #[trigger] r@[i].0 == patterns_for(ext@)[i].0 && r@[i].1@ == patterns_for(ext@)[i].1,
{
    if same_text(ext, "ts") || same_text(ext, "tsx") {
        vec![
            (NodeKind::Function, FUNCTION_PATTERN),
            (NodeKind::Class, CLASS_PATTERN),
            (NodeKind::Interface, INTERFACE_PATTERN),
            (NodeKind::TypeAlias, TYPE_ALIAS_PATTERN),
            (NodeKind::Enum, ENUM_PATTERN),
        ]
    } else if same_text(ext, "js") || same_text(ext, "jsx") {
        vec![(NodeKind::Function, FUNCTION_PATTERN), (NodeKind::Class, CLASS_PATTERN)]
    } else if same_text(ext, "py") {
        vec![(NodeKind::Function, PY_DEF_PATTERN), (NodeKind::Class, PY_CLASS_PATTERN)]
    } else {
        vec![]
    }
}

/// Adds the symbols that the patterns of the file's extension find in a
/// file other than a Rust one.
fn extract_pattern_symbols(graph: &mut KnowledgeGraph, file_id: &str, file_path: &str, ext: &str, content: &str)
    ensures
        final(graph).gview() == with_pattern_symbols(old(graph).gview(), file_id@, file_path@, content@, patterns_for(ext@)),
{
    let pats = patterns_of(ext);
    let ghost ps = patterns_for(ext@);
    assert forall|k: int| 0 <= k < pats@.len() implies #[trigger] pats@[k].0 == ps[k].0 && pats@[k].1@ == ps[k].1 by {
        assert(pats@[k].0 == patterns_for(ext@)[k].0);
    }
    let mut i: usize = 0;
    while i < pats.len()
        invariant
            0 <= i <= pats@.len(),
            ps == patterns_for(ext@),
            pats@.len() == ps.len(),
            forall|k: int| 0 <= k < pats@.len() ==> #[trigger] pats@[k].0 == ps[k].0 && pats@[k].1@ == ps[k].1,
            graph.gview() == with_pattern_symbols(old(graph).gview(), file_id@, file_path@, content@, ps.take(i as int)),
        decreases pats@.len() - i,
    {
        proof {
            assert(ps.take(i + 1).drop_last() =~= ps.take(i as int));
            assert(pats@[i as int].0 == ps[i as int].0);
        }
        let (kind, pattern) = pats[i];
        match regex_captures(pattern, content) {
            Some(caps) => add_captured(graph, file_id, file_path, kind, &caps),
            None => {},
        }
        i = i + 1;
    }
    assert(ps.take(pats@.len() as int) =~= ps);
}


#[verifier::external_type_specification]
#[verifier::external_body]
pub struct ExTree(Tree);

/// A Rust source text together with the syntax tree that the tree-sitter
/// Rust grammar gives for it. Only `parse_rust` makes one, so the tree is
/// always that of the text.
pub struct ParsedTree {
    tree: Tree,
    text: String,
}

impl ParsedTree {
    /// The source text the tree was parsed from.
    pub closed spec fn source(&self) -> Seq<char> {
        self.text@
    }
}

/// Whether the tree-sitter parser, given the Rust grammar, returns a tree
/// for `text` (`Parser::parse`).
pub uninterp spec fn rust_syntax_tree(text: Seq<char>) -> bool;

/// The characters of an optional string slice.
pub open spec fn opt_str(o: Option<&str>) -> Option<Seq<char>> {
    match o {
        Some(s) => Some(s@),
        None => None,
    }
}

/// Nodes of the syntax tree of `text` are addressed by `(i, field, k)`: the
/// `k`-th node, in pre-order, of the subtree at the `i`-th node of the tree
/// (in pre-order, the root being 0), or, when `field` names one, of the
/// subtree at that node's first child under the field
/// (`Node::child_by_field_name`). Such a node is absent when the field
/// names no child. `Node::descendant_count` of the addressed node: the
/// number of nodes of its subtree, itself included.
pub uninterp spec fn syntax_size(text: Seq<char>, i: nat, field: Option<Seq<char>>, k: nat) -> Option<nat>;

/// `Node::kind` of the addressed node (see `syntax_size`): the grammar name
/// of its type.
pub uninterp spec fn syntax_kind(text: Seq<char>, i: nat, field: Option<Seq<char>>, k: nat) -> Option<Seq<char>>;

/// `Node::start_byte` of the addressed node (see `syntax_size`).
pub uninterp spec fn syntax_start(text: Seq<char>, i: nat, field: Option<Seq<char>>, k: nat) -> Option<nat>;

/// `Node::end_byte` of the addressed node (see `syntax_size`).
pub uninterp spec fn syntax_end(text: Seq<char>, i: nat, field: Option<Seq<char>>, k: nat) -> Option<nat>;

/// `Parser::new`, `Parser::set_language` with the grammar of
/// `tree_sitter_rust`, and `Parser::parse` of `text` without an old tree.
/// The source shows that `parse` gives a tree unless no language is set or
/// a timeout or cancellation flag (neither used here) stops it, so whether
/// a tree comes back is a matter of the text and the fixed grammar only.
#[verifier::external_body]
fn parse_rust(text: &str) -> (r: Option<ParsedTree>)
    ensures
        match r {
            Some(t) => t.source() == text@ && rust_syntax_tree(text@),
            None => !rust_syntax_tree(text@),
        },
{
    let mut parser = tree_sitter::Parser::new();
    parser.set_language(&tree_sitter_rust::LANGUAGE.into()).ok()?;
    parser.parse(text, None).map(|tree| ParsedTree { tree, text: text.to_owned() })
}

/// `Node::descendant_count` of the node at `(i, field, k)` (see
/// `syntax_size`), reached with `TreeCursor::goto_descendant` and
/// `Node::child_by_field_name`.
#[verifier::external_body]
fn size_at(t: &ParsedTree, i: usize, field: Option<&str>, k: usize) -> (r: Option<usize>)
    ensures
        match r {
            Some(n) => syntax_size(t.source(), i as nat, opt_str(field), k as nat) == Some(n as nat),
            None => syntax_size(t.source(), i as nat, opt_str(field), k as nat) is None,
        },
{
    let mut c = t.tree.root_node().walk();
    c.goto_descendant(i);
    let base = match field { Some(f) => c.node().child_by_field_name(f), None => Some(c.node()) };
    base.map(|b| { let mut d = b.walk(); d.goto_descendant(k); d.node().descendant_count() })
}

/// `Node::kind` of the node at `(i, field, k)` (see `syntax_kind`).
#[verifier::external_body]
fn kind_at(t: &ParsedTree, i: usize, field: Option<&str>, k: usize) -> (r: Option<&'static str>)
    ensures
        match r {
            Some(s) => syntax_kind(t.source(), i as nat, opt_str(field), k as nat) == Some(s@),
            None => syntax_kind(t.source(), i as nat, opt_str(field), k as nat) is None,
        },
{
    let mut c = t.tree.root_node().walk();
    c.goto_descendant(i);
    let base = match field { Some(f) => c.node().child_by_field_name(f), None => Some(c.node()) };
    base.map(|b| { let mut d = b.walk(); d.goto_descendant(k); d.node().kind() })
}

/// `Node::start_byte` of the node at `(i, field, k)` (see `syntax_start`).
#[verifier::external_body]
fn start_at(t: &ParsedTree, i: usize, field: Option<&str>, k: usize) -> (r: Option<usize>)
    ensures
        match r {
            Some(n) => syntax_start(t.source(), i as nat, opt_str(field), k as nat) == Some(n as nat),
            None => syntax_start(t.source(), i as nat, opt_str(field), k as nat) is None,
        },
{
    let mut c = t.tree.root_node().walk();
    c.goto_descendant(i);
    let base = match field { Some(f) => c.node().child_by_field_name(f), None => Some(c.node()) };
    base.map(|b| { let mut d = b.walk(); d.goto_descendant(k); d.node().start_byte() })
}

/// `Node::end_byte` of the node at `(i, field, k)` (see `syntax_end`).
#[verifier::external_body]
fn end_at(t: &ParsedTree, i: usize, field: Option<&str>, k: usize) -> (r: Option<usize>)
    ensures
        match r {
            Some(n) => syntax_end(t.source(), i as nat, opt_str(field), k as nat) == Some(n as nat),
            None => syntax_end(t.source(), i as nat, opt_str(field), k as nat) is None,
        },
{
    let mut c = t.tree.root_node().walk();
    c.goto_descendant(i);
    let base = match field { Some(f) => c.node().child_by_field_name(f), None => Some(c.node()) };
    base.map(|b| { let mut d = b.walk(); d.goto_descendant(k); d.node().end_byte() })
}

/// `std::str::from_utf8`: the text that `bytes` encode, when they are valid
/// UTF-8 (std documentation), as an owned string.
#[verifier::external_body]
fn utf8_to_string(bytes: &[u8]) -> (r: Option<String>)
    ensures
        match r {
            Some(t) => valid_utf8(bytes@) && t@ == decode_utf8(bytes@),
            None => !valid_utf8(bytes@),
        },
{
    std::str::from_utf8(bytes).ok().map(|t| t.to_owned())
}

/// Whether `t` is the text encoded by some stretch of `source`.
pub open spec fn source_text(source: Seq<u8>, t: Seq<char>) -> bool {
    exists|s: int, e: int|
        0 <= s <= e <= source.len() && valid_utf8(#[trigger] source.subrange(s, e)) && t == decode_utf8(
            source.subrange(s, e),
        )
}

fn slice_to_vec(v: &[u8], lo: usize, hi: usize) -> (r: Vec<u8>)
    requires
        lo <= hi <= v@.len(),
    ensures
        r@ == v@.subrange(lo as int, hi as int),
{
    let mut r: Vec<u8> = Vec::new();
    let mut k = lo;
    while k < hi
        invariant
            lo <= k <= hi <= v@.len(),
            r@ == v@.subrange(lo as int, k as int),
        decreases hi - k,
    {
        r.push(v[k]);
        assert(v@.subrange(lo as int, k + 1) =~= v@.subrange(lo as int, k as int).push(v@[k as int]));
        k = k + 1;
    }
    r
}

/// The text that bytes `s..e` of `source` encode, if the range lies inside
/// `source` and holds valid UTF-8.
pub open spec fn text_between(source: Seq<u8>, s: int, e: int) -> Option<Seq<char>> {
    if 0 <= s <= e <= source.len() && valid_utf8(source.subrange(s, e)) {
        Some(decode_utf8(source.subrange(s, e)))
    } else {
        None
    }
}

/// The text of bytes `s..e` of `source` (see `text_between`).
pub fn text_in(source: &[u8], s: usize, e: usize) -> (r: Option<String>)
    ensures
        match r {
            Some(t) => text_between(source@, s as int, e as int) == Some(t@),
            None => text_between(source@, s as int, e as int) is None,
        },
{
    if s <= e && e <= source.len() {
        let bytes = slice_to_vec(source, s, e);
        utf8_to_string(bytes.as_slice())
    } else {
        None
    }
}

/// The text of the node at `(i, field, k)` (`Node::utf8_text`): the text
/// that its byte range of the UTF-8 encoded source holds, if the node is
/// present and the range is valid UTF-8.
pub open spec fn node_source_text(text: Seq<char>, i: nat, field: Option<Seq<char>>, k: nat) -> Option<Seq<char>> {
    match (syntax_start(text, i, field, k), syntax_end(text, i, field, k)) {
        (Some(s), Some(e)) => text_between(encode_utf8(text), s as int, e as int),
        _ => None,
    }
}

/// The text of the node at `(i, field, k)` (see `node_source_text`).
fn node_text(t: &ParsedTree, i: usize, field: Option<&str>, k: usize) -> (r: Option<String>)
    ensures
        opt_text(r) == node_source_text(t.source(), i as nat, opt_str(field), k as nat),
{
    let s = start_at(t, i, field, k);
    let e = end_at(t, i, field, k);
    match (s, e) {
        (Some(s), Some(e)) => {
            let r = text_in(t.text.as_str().as_bytes(), s, e);
            proof {
                assert(t.text@ == t.source());
            }
            r
        },
        _ => None,
    }
}

/// The text of the `i`-th node's child under `field_name`, if there is
/// such a child and its text is valid.
pub open spec fn field_source_text(text: Seq<char>, i: nat, field: Seq<char>) -> Option<Seq<char>> {
    node_source_text(text, i, Some(field), 0)
}

/// The text of the `i`-th node's child under `field_name` (see
/// `field_source_text`).
pub fn field_text(t: &ParsedTree, i: usize, field_name: &str) -> (r: Option<String>)
    ensures
        opt_text(r) == field_source_text(t.source(), i as nat, field_name@),
{
    node_text(t, i, Some(field_name), 0)
}

/// Whether a node kind names a type.
pub open spec fn type_name_kind(kind: Option<Seq<char>>) -> bool {
    match kind {
        Some(k) => k == "type_identifier"@ || k == "scoped_type_identifier"@ || k == "identifier"@,
        None => false,
    }
}

/// The first of the first `n` nodes, in pre-order, of the subtree at
/// `(i, field)` whose kind names a type.
pub open spec fn first_type_upto(text: Seq<char>, i: nat, field: Option<Seq<char>>, n: nat) -> Option<nat>
    decreases n,
{
    if n == 0 {
        None
    } else {
        match first_type_upto(text, i, field, (n - 1) as nat) {
            Some(k) => Some(k),
            None => if type_name_kind(syntax_kind(text, i, field, (n - 1) as nat)) {
                Some((n - 1) as nat)
            } else {
                None
            },
        }
    }
}

/// The text of the first node, in pre-order, of the subtree at `(i, field)`
/// whose kind is `type_identifier`, `scoped_type_identifier` or
/// `identifier`, if there is one (and its text is valid).
pub open spec fn first_type_text(text: Seq<char>, i: nat, field: Option<Seq<char>>) -> Option<Seq<char>> {
    match syntax_size(text, i, field, 0) {
        Some(n) => match first_type_upto(text, i, field, n) {
            Some(k) => node_source_text(text, i, field, k),
            None => None,
        },
        None => None,
    }
}

/// The text of the first type name in the subtree at `(i, field)` (see
/// `first_type_text`).
pub fn find_first_type_identifier(t: &ParsedTree, i: usize, field: Option<&str>) -> (r: Option<String>)
    ensures
        opt_text(r) == first_type_text(t.source(), i as nat, opt_str(field)),
{
    let count = match size_at(t, i, field, 0) {
        Some(n) => n,
        None => return None,
    };
    let ghost fv = opt_str(field);
    let mut k: usize = 0;
    while k < count
        invariant
            syntax_size(t.source(), i as nat, fv, 0) == Some(count as nat),
            fv == opt_str(field),
            0 <= k <= count,
            first_type_upto(t.source(), i as nat, fv, k as nat) is None,
        decreases count - k,
    {
        let kind = kind_at(t, i, field, k);
        let hit = match kind {
            Some(kd) => same_text(kd, "type_identifier") || same_text(kd, "scoped_type_identifier")
                || same_text(kd, "identifier"),
            None => false,
        };
        if hit {
            proof {
                assert(first_type_upto(t.source(), i as nat, fv, (k + 1) as nat) == Some(k as nat));
                lemma_first_type_upto_stable(t.source(), i as nat, fv, (k + 1) as nat, count as nat);
            }
            return node_text(t, i, field, k);
        }
        k = k + 1;
    }
    None
}

/// Once found among the first `n` nodes, the first type name stays the
/// first among more.
proof fn lemma_first_type_upto_stable(text: Seq<char>, i: nat, field: Option<Seq<char>>, n: nat, m: nat)
    requires
        n <= m,
        first_type_upto(text, i, field, n) is Some,
    ensures
        first_type_upto(text, i, field, m) == first_type_upto(text, i, field, n),
    decreases m - n,
{
    if n < m {
        lemma_first_type_upto_stable(text, i, field, n, (m - 1) as nat);
    }
}

/// The name of the type an impl item (the `i`-th node) is for: the first
/// type name inside its `type` field, else the whole text of that field;
/// nothing when it has no `type` field.
pub open spec fn impl_name(text: Seq<char>, i: nat) -> Option<Seq<char>> {
    match syntax_size(text, i, Some("type"@), 0) {
        Some(_) => match first_type_text(text, i, Some("type"@)) {
            Some(found) => Some(found),
            None => node_source_text(text, i, Some("type"@), 0),
        },
        None => None,
    }
}

/// The name of the type an impl item is for (see `impl_name`).
pub fn impl_type_name(t: &ParsedTree, i: usize) -> (r: Option<String>)
    ensures
        opt_text(r) == impl_name(t.source(), i as nat),
{
    match size_at(t, i, Some("type"), 0) {
        Some(_) => {},
        None => return None,
    }
    match find_first_type_identifier(t, i, Some("type")) {
        Some(found) => Some(found),
        None => node_text(t, i, Some("type"), 0),
    }
}

/// The graph after a symbol is added for each `(kind, name)`, in order.
pub open spec fn with_symbols(g: GraphView, file_id: Seq<char>, fp: Seq<char>, items: Seq<(NodeKind, Seq<char>)>) -> GraphView
    decreases items.len(),
{
    if items.len() == 0 {
        g
    } else {
        with_symbol(with_symbols(g, file_id, fp, items.drop_last()), file_id, fp, items.last().0, items.last().1)
    }
}

/// The kinds of symbol taken from Rust syntax trees.
pub open spec fn rust_symbol_kind(k: NodeKind) -> bool {
    k == NodeKind::Function || k == NodeKind::Struct || k == NodeKind::Enum || k == NodeKind::Trait
        || k == NodeKind::Impl
}

/// The symbol kind of a Rust item node kind, if it declares one.
pub open spec fn rust_item_kind(kind: Seq<char>) -> Option<NodeKind> {
    if kind == "function_item"@ {
        Some(NodeKind::Function)
    } else if kind == "struct_item"@ {
        Some(NodeKind::Struct)
    } else if kind == "enum_item"@ {
        Some(NodeKind::Enum)
    } else if kind == "trait_item"@ {
        Some(NodeKind::Trait)
    } else if kind == "impl_item"@ {
        Some(NodeKind::Impl)
    } else {
        None
    }
}

fn item_kind(kind: &str) -> (r: Option<NodeKind>)
    ensures
        r == rust_item_kind(kind@),
{
    if same_text(kind, "function_item") {
        Some(NodeKind::Function)
    } else if same_text(kind, "struct_item") {
        Some(NodeKind::Struct)
    } else if same_text(kind, "enum_item") {
        Some(NodeKind::Enum)
    } else if same_text(kind, "trait_item") {
        Some(NodeKind::Trait)
    } else if same_text(kind, "impl_item") {
        Some(NodeKind::Impl)
    } else {
        None
    }
}

/// The symbol of the `i`-th node of the syntax tree of `text`, if it is a
/// function, struct, enum, trait or impl item with a name: its `name`
/// field, or for an impl the type it is for (see `impl_name`).
pub open spec fn rust_item_at(text: Seq<char>, i: nat) -> Option<(NodeKind, Seq<char>)> {
    match syntax_kind(text, i, None, 0) {
        Some(kd) => match rust_item_kind(kd) {
            Some(kind) => {
                let name = if kind == NodeKind::Impl { impl_name(text, i) } else { field_source_text(text, i, "name"@) };
                match name {
                    Some(n) => Some((kind, n)),
                    None => None,
                }
            },
            None => None,
        },
        None => None,
    }
}

/// The symbols among the first `n` nodes of the syntax tree, in pre-order.
pub open spec fn rust_items_upto(text: Seq<char>, n: nat) -> Seq<(NodeKind, Seq<char>)>
    decreases n,
{
    if n == 0 {
        Seq::empty()
    } else {
        let before = rust_items_upto(text, (n - 1) as nat);
        match rust_item_at(text, (n - 1) as nat) {
            Some(item) => before.push(item),
            None => before,
        }
    }
}

/// The symbols of a Rust source text: for every node of its syntax tree, in
/// pre-order, that is a function, struct, enum, trait or impl item with a
/// name, its kind and name; none when the text yields no tree.
pub open spec fn rust_symbols(text: Seq<char>) -> Seq<(NodeKind, Seq<char>)> {
    if rust_syntax_tree(text) {
        match syntax_size(text, 0, None, 0) {
            Some(n) => rust_items_upto(text, n),
            None => Seq::empty(),
        }
    } else {
        Seq::empty()
    }
}

/// Adds a symbol for every function, struct, enum, trait and impl item of
/// a Rust source text, in pre-order of its syntax tree (see
/// `rust_symbols`), each contained in the file's node.
pub fn extract_rust_symbols(graph: &mut KnowledgeGraph, file_id: &str, file_path: &str, content: &str)
    ensures
        final(graph).gview() == with_symbols(old(graph).gview(), file_id@, file_path@, rust_symbols(content@)),
{
    let ghost empty = Seq::<(NodeKind, Seq<char>)>::empty();
    assert(with_symbols(old(graph).gview(), file_id@, file_path@, empty) == old(graph).gview());
    let tree = match parse_rust(content) {
        Some(t) => t,
        None => return,
    };
    let count = match size_at(&tree, 0, None, 0) {
        Some(n) => n,
        None => return,
    };
    let ghost text = content@;
    let mut i: usize = 0;
    while i < count
        invariant
            tree.source() == text,
            text == content@,
            rust_syntax_tree(text),
            syntax_size(text, 0, None, 0) == Some(count as nat),
            0 <= i <= count,
            graph.gview() == with_symbols(old(graph).gview(), file_id@, file_path@, rust_items_upto(text, i as nat)),
        decreases count - i,
    {
        let ghost before = rust_items_upto(text, i as nat);
        match kind_at(&tree, i, None, 0) {
            Some(kd) => match item_kind(kd) {
                Some(kind) => {
                    let name = if kind == NodeKind::Impl {
                        impl_type_name(&tree, i)
                    } else {
                        field_text(&tree, i, "name")
                    };
                    match name {
                        Some(n) => {
                            add_symbol(graph, file_id, file_path, kind, n.as_str());
                            proof {
                                assert(rust_items_upto(text, (i + 1) as nat) == before.push((kind, n@)));
                                assert(rust_items_upto(text, (i + 1) as nat).drop_last() =~= before);
                            }
                        },
                        None => {},
                    }
                },
                None => {},
            },
            None => {},
        }
        i = i + 1;
    }
}

/// The outcome of searching one file for symbols: for a Rust file, the
/// symbols of its syntax tree (see `rust_symbols`); for other files, those
/// that the patterns of its extension find.
pub open spec fn symbols_extracted(g: GraphView, h: GraphView, fp: Seq<char>, content: Seq<char>) -> bool {
    if extension(fp) == "rs"@ {
        h == with_symbols(g, file_node_id(fp), fp, rust_symbols(content))
    } else {
        h == with_pattern_symbols(g, file_node_id(fp), fp, content, patterns_for(extension(fp)))
    }
}

/// Adds the symbols declared in `content`, the text of the file at
/// `file_path`, each contained in the file's node.
pub fn extract_symbols(graph: &mut KnowledgeGraph, file_path: &str, content: &str)
    ensures
        symbols_extracted(old(graph).gview(), final(graph).gview(), file_path@, content@),
{
    let file_id = concat2("file:", file_path);
    let ext = extension_of(file_path);
    if same_text(ext.as_str(), "rs") {
        extract_rust_symbols(graph, file_id.as_str(), file_path, content);
        proof {
            assert(file_id@ == file_node_id(file_path@));
        }
        return;
    }
    extract_pattern_symbols(graph, file_id.as_str(), file_path, ext.as_str(), content);
}

impl ScannedFile {
    /// A field-by-field copy.
    pub fn duplicate(&self) -> (r: ScannedFile)
        ensures
            r == *self,
    {
        ScannedFile { path: self.path.clone(), size: self.size }
    }
}

impl ParsePhase {
    /// The scanned files whose paths are searched for symbols, in order.
    pub fn parseable_files(files: &Vec<ScannedFile>) -> (r: Vec<ScannedFile>)
        ensures
            r@ == files@.filter(|f: ScannedFile| parseable_extension(extension(f.path@))),
    {
        let ghost p = |f: ScannedFile| parseable_extension(extension(f.path@));
        let mut r: Vec<ScannedFile> = Vec::new();
        let mut i: usize = 0;
        proof { crate::graph::lemma_filter_all(files@, p); }
        while i < files.len()
            invariant
                0 <= i <= files@.len(),
                r@ == files@.take(i as int).filter(p),
                p == |f: ScannedFile| parseable_extension(extension(f.path@)),
            decreases files@.len() - i,
        {
            proof { crate::graph::lemma_filter_step(files@, p, i as int); }
            if is_parseable(files[i].path.as_str()) {
                r.push(files[i].duplicate());
            }
            i = i + 1;
        }
        proof { crate::graph::lemma_filter_all(files@, p); }
        r
    }
}


/// What reading a file gave: its text, or nothing where it could not be read.
pub open spec fn content_view(c: Option<String>) -> Option<Seq<char>> {
    match c {
        Some(t) => Some(t@),
        None => None,
    }
}

/// One step of the parse phase: the symbols of a file that was read; no
/// change for one that was not.
pub open spec fn parse_step(g: GraphView, h: GraphView, fp: Seq<char>, content: Option<Seq<char>>) -> bool {
    match content {
        Some(t) => symbols_extracted(g, h, fp, t),
        None => h == g,
    }
}

/// `gs` is the run of graphs that parsing `files` in order goes through,
/// starting from `g`, with what reading each file gave.
pub open spec fn parse_run(g: GraphView, gs: Seq<GraphView>, files: Seq<ScannedFile>, contents: Seq<Option<Seq<char>>>) -> bool {
    &&& gs.len() == files.len() + 1
    &&& gs[0] == g
    &&& forall|i: int| 0 <= i < files.len() ==> parse_step(#[trigger] gs[i], gs[i + 1], files[i].path@, contents[i])
}

/// Counters of a report: files done, files in all, and the graph's size.
pub open spec fn counters(done: nat, total: usize, g: GraphView) -> Option<PipelineStats> {
    Some(PipelineStats {
        files_processed: done as usize,
        total_files: total,
        nodes_created: g.nodes.len() as usize,
        relationships_created: g.rels.len() as usize,
    })
}

impl ParsePhase {
    /// The report that opens the parse phase, at 20%.
    pub fn opening_report(total_files: usize, graph: &KnowledgeGraph) -> (r: PipelineProgress)
        ensures
            is_report(r, PipelinePhase::Parse, 20, "Parsing symbols..."@, counters(0, total_files, graph.gview())),
    {
        progress_report(
            PipelinePhase::Parse,
            20,
            "Parsing symbols...",
            None,
            Some(stats_of(0, total_files, graph.node_count(), graph.relationship_count())),
        )
    }

    /// The report that closes the parse phase, at 70%.
    pub fn closing_report(total_files: usize, graph: &KnowledgeGraph) -> (r: PipelineProgress)
        ensures
            is_report(r, PipelinePhase::Parse, 70, "Symbol parsing complete"@,
                counters(total_files as nat, total_files, graph.gview())),
    {
        progress_report(
            PipelinePhase::Parse,
            70,
            "Symbol parsing complete",
            None,
            Some(stats_of(total_files, total_files, graph.node_count(), graph.relationship_count())),
        )
    }

    /// One file of the parse phase: adds the symbols of `content`, what
    /// reading the file at `path` gave (nothing where it could not be read),
    /// and returns the report for it: `done` files processed of
    /// `total_files`, at `percent`.
    pub fn parse_file(
        graph: &mut KnowledgeGraph,
        path: &str,
        content: &Option<String>,
        done: usize,
        total_files: usize,
        percent: u8,
    ) -> (r: PipelineProgress)
        ensures
            parse_step(old(graph).gview(), final(graph).gview(), path@, content_view(*content)),
            r.phase == PipelinePhase::Parse,
            r.percent == percent,
            r.message@ == "Parsing symbols..."@,
            r.detail matches Some(d) && d@ == path@,
            r.stats == counters(done as nat, total_files, final(graph).gview()),
    {
        match content {
            Some(text) => {
                extract_symbols(graph, path, text.as_str());
            },
            None => {},
        }
        progress_report(
            PipelinePhase::Parse,
            percent,
            "Parsing symbols...",
            Some(path.to_string()),
            Some(stats_of(done, total_files, graph.node_count(), graph.relationship_count())),
        )
    }
}

impl ParsePhase {
    /// Runs the parse phase over the files that the structure phase handed
    /// on: the parseable ones (see `parseable_files`), in order, each with
    /// what reading it gave (`contents`) and the percentage reported after
    /// it (`percents`), both worked out by the caller. Reports the start at
    /// 20%, each file, and the end at 70%.
    #[verifier::spinoff_prover]
    pub fn execute(
        structure: StructureOutput,
        contents: Vec<Option<String>>,
        percents: Vec<u8>,
        graph: &mut KnowledgeGraph,
        progress: &mut Vec<PipelineProgress>,
    ) -> (r: ParseOutput)
        requires
            contents@.len() == structure.scanned_files@.filter(|f: ScannedFile| parseable_extension(extension(f.path@))).len(),
            percents@.len() == contents@.len(),
        ensures
            ({
                let files = structure.scanned_files@.filter(|f: ScannedFile| parseable_extension(extension(f.path@)));
                let total = structure.total_files;
                let n = files.len();
                let base = old(progress)@.len();
                &&& exists|gs: Seq<GraphView>| {
                    &&& parse_run(old(graph).gview(), gs, files, contents@.map_values(|c: Option<String>| content_view(c)))
                    &&& gs.last() == final(graph).gview()
                    &&& forall|i: int| 0 <= i < n ==> {
                        &&& (#[trigger] final(progress)@[base + 1 + i]).phase == PipelinePhase::Parse
                        &&& final(progress)@[base + 1 + i].percent == percents@[i]
                        &&& final(progress)@[base + 1 + i].message@ == "Parsing symbols..."@
                        &&& final(progress)@[base + 1 + i].detail matches Some(d) && d@ == files[i].path@
                        &&& final(progress)@[base + 1 + i].stats == counters((i + 1) as nat, total, gs[i + 1])
                    }
                }
                &&& final(progress)@.len() == base + n + 2
                &&& final(progress)@.take(base as int) == old(progress)@
                &&& is_report(final(progress)@[base as int], PipelinePhase::Parse, 20, "Parsing symbols..."@,
                    counters(0, total, old(graph).gview()))
                &&& is_report(final(progress)@[base + n + 1int], PipelinePhase::Parse, 70, "Symbol parsing complete"@,
                    counters(total as nat, total, final(graph).gview()))
            }),
            r.scanned_files@ == structure.scanned_files@,
            r.all_paths@ == structure.all_paths@,
            r.total_files == structure.total_files,
    {
        let total_files = structure.total_files;
        let ghost g0 = graph.gview();
        let ghost base = progress@.len();
        progress.push(Self::opening_report(total_files, graph));
        let files = Self::parseable_files(&structure.scanned_files);
        let ghost cv = contents@.map_values(|c: Option<String>| content_view(c));
        proof {
            assert(progress@.take(base as int) =~= old(progress)@);
        }
        let ghost mut gs: Seq<GraphView> = seq![g0];
        let mut i: usize = 0;
        while i < files.len()
            invariant
                files@ == structure.scanned_files@.filter(|f: ScannedFile| parseable_extension(extension(f.path@))),
                contents@.len() == files@.len(),
                percents@.len() == files@.len(),
                cv == contents@.map_values(|c: Option<String>| content_view(c)),
                0 <= i <= files@.len(),
                gs.len() == i + 1,
                gs[0] == g0,
                gs.last() == graph.gview(),
                forall|k: int| 0 <= k < i ==> parse_step(#[trigger] gs[k], gs[k + 1], files@[k].path@, cv[k]),
                progress@.len() == base + 1 + i,
                base == old(progress)@.len(),
                progress@.take(base as int) == old(progress)@,
                is_report(progress@[base as int], PipelinePhase::Parse, 20, "Parsing symbols..."@, counters(0, total_files, g0)),
                forall|k: int| 0 <= k < i ==> {
                    &&& (#[trigger] progress@[base + 1 + k]).phase == PipelinePhase::Parse
                    &&& progress@[base + 1 + k].percent == percents@[k]
                    &&& progress@[base + 1 + k].message@ == "Parsing symbols..."@
                    &&& progress@[base + 1 + k].detail matches Some(d) && d@ == files@[k].path@
                    &&& progress@[base + 1 + k].stats == counters((k + 1) as nat, total_files, gs[k + 1])
                },
            decreases files@.len() - i,
        {
            let ghost before = graph.gview();
            let ghost plog = progress@;
            let report = Self::parse_file(graph, files[i].path.as_str(), &contents[i], i + 1, total_files, percents[i]);
            proof {
                gs = gs.push(graph.gview());
                assert(gs[i as int] == before);
                assert(cv[i as int] == content_view(contents@[i as int]));
            }
            progress.push(report);
            proof {
                assert(progress@.take(base as int) =~= plog.take(base as int));
                assert forall|k: int| 0 <= k < i + 1 implies parse_step(#[trigger] gs[k], gs[k + 1], files@[k].path@, cv[k]) by {
                    if k < i {
                        assert(gs[k] == gs.drop_last()[k]);
                    }
                }
                assert forall|k: int| 0 <= k < i + 1 implies {
                    &&& (#[trigger] progress@[base + 1 + k]).phase == PipelinePhase::Parse
                    &&& progress@[base + 1 + k].percent == percents@[k]
                    &&& progress@[base + 1 + k].message@ == "Parsing symbols..."@
                    &&& progress@[base + 1 + k].detail matches Some(d) && d@ == files@[k].path@
                    &&& progress@[base + 1 + k].stats == counters((k + 1) as nat, total_files, gs[k + 1])
                } by {
                    if k < i {
                        assert(progress@[base + 1 + k] == plog[base + 1 + k]);
                        assert(gs[k + 1] == gs.drop_last()[k + 1]);
                    }
                }
            }
            i = i + 1;
        }
        progress.push(Self::closing_report(total_files, graph));
        proof {
            let n = files@.len();
            assert(parse_run(g0, gs, files@, cv));
            assert(progress@.take(base as int) =~= progress@.drop_last().take(base as int));
            assert(is_report(progress@[base as int], PipelinePhase::Parse, 20, "Parsing symbols..."@, counters(0, total_files, g0)));
            assert(is_report(progress@[base + n + 1int], PipelinePhase::Parse, 70, "Symbol parsing complete"@,
                counters(total_files as nat, total_files, graph.gview())));
            assert forall|i: int| 0 <= i < n implies {
                &&& (#[trigger] progress@[base + 1 + i]).phase == PipelinePhase::Parse
                &&& progress@[base + 1 + i].percent == percents@[i]
                &&& progress@[base + 1 + i].message@ == "Parsing symbols..."@
                &&& progress@[base + 1 + i].detail matches Some(d) && d@ == files@[i].path@
                &&& progress@[base + 1 + i].stats == counters((i + 1) as nat, total_files, gs[i + 1])
            } by {
                assert(progress@[base + 1 + i] == progress@.drop_last()[base + 1 + i]);
            }
        }
        ParseOutput {
            scanned_files: structure.scanned_files,
            all_paths: structure.all_paths,
            total_files,
        }
    }
}

/// `h` keeps every node and relationship of `g`, in place.
pub open spec fn grows(g: GraphView, h: GraphView) -> bool {
    &&& g.nodes.len() <= h.nodes.len()
    &&& g.rels.len() <= h.rels.len()
    &&& forall|i: int| 0 <= i < g.nodes.len() ==> #[trigger] h.nodes[i] == g.nodes[i]
    &&& forall|i: int| 0 <= i < g.rels.len() ==> #[trigger] h.rels[i] == g.rels[i]
}

proof fn lemma_grows_trans(a: GraphView, b: GraphView, c: GraphView)
    requires
        grows(a, b),
        grows(b, c),
    ensures
        grows(a, c),
{
    assert forall|i: int| 0 <= i < a.nodes.len() implies #[trigger] c.nodes[i] == a.nodes[i] by {
        assert(b.nodes[i] == a.nodes[i]);
    }
    assert forall|i: int| 0 <= i < a.rels.len() implies #[trigger] c.rels[i] == a.rels[i] by {
        assert(b.rels[i] == a.rels[i]);
    }
}

proof fn lemma_grows_present(g: GraphView, h: GraphView, nid: Seq<char>, rid: Seq<char>)
    requires
        grows(g, h),
    ensures
        node_id_present(g, nid) ==> node_id_present(h, nid),
        rel_id_present(g, rid) ==> rel_id_present(h, rid),
{
    if node_id_present(g, nid) {
        let i = choose|i: int| 0 <= i < g.nodes.len() && #[trigger] g.nodes[i].id == nid;
        assert(h.nodes[i] == g.nodes[i]);
    }
    if rel_id_present(g, rid) {
        let i = choose|i: int| 0 <= i < g.rels.len() && #[trigger] g.rels[i].id == rid;
        assert(h.rels[i] == g.rels[i]);
    }
}

/// After a symbol is added, its node and its CONTAINS relationship are there.
proof fn lemma_with_symbol(g: GraphView, file_id: Seq<char>, fp: Seq<char>, kind: NodeKind, name: Seq<char>)
    ensures
        grows(g, with_symbol(g, file_id, fp, kind, name)),
        node_id_present(with_symbol(g, file_id, fp, kind, name), symbol_id(fp, kind, name)),
        rel_id_present(with_symbol(g, file_id, fp, kind, name), contains_rel_id(file_id, symbol_id(fp, kind, name))),
{
    let n = symbol_view(fp, kind, name);
    let r = contains_view(file_id, symbol_id(fp, kind, name));
    let m = view_add_node(g, n);
    let h = view_add_rel(m, r);
    if exists|i: int| 0 <= i < g.nodes.len() && #[trigger] g.nodes[i].id == n.id {
        assert(m == g);
    } else {
        assert(m.nodes == g.nodes.push(n));
        assert(m.nodes[g.nodes.len() as int].id == n.id);
    }
    if exists|i: int| 0 <= i < m.rels.len() && #[trigger] m.rels[i].id == r.id {
        assert(h == m);
    } else {
        assert(h.rels == m.rels.push(r));
        assert(h.rels[m.rels.len() as int].id == r.id);
    }
    assert(grows(g, m));
    assert(grows(m, h));
    lemma_grows_trans(g, m, h);
    lemma_grows_present(m, h, n.id, r.id);
}

/// After the captures of a pattern are added, every captured name has its
/// symbol node and CONTAINS relationship.
proof fn lemma_with_captured(g: GraphView, file_id: Seq<char>, fp: Seq<char>, kind: NodeKind, caps: Seq<Option<Seq<char>>>)
    ensures
        grows(g, with_captured(g, file_id, fp, kind, caps)),
        forall|j: int| 0 <= j < caps.len() && (#[trigger] caps[j]) is Some ==> {
            &&& node_id_present(with_captured(g, file_id, fp, kind, caps), symbol_id(fp, kind, caps[j]->0))
            &&& rel_id_present(with_captured(g, file_id, fp, kind, caps), contains_rel_id(file_id, symbol_id(fp, kind, caps[j]->0)))
        },
    decreases caps.len(),
{
    if caps.len() > 0 {
        let front = caps.drop_last();
        lemma_with_captured(g, file_id, fp, kind, front);
        let h0 = with_captured(g, file_id, fp, kind, front);
        let h = with_captured(g, file_id, fp, kind, caps);
        match caps.last() {
            Some(name) => {
                lemma_with_symbol(h0, file_id, fp, kind, name);
            },
            None => {
                assert(h == h0);
            },
        }
        assert(grows(h0, h));
        lemma_grows_trans(g, h0, h);
        assert forall|j: int| 0 <= j < caps.len() && (#[trigger] caps[j]) is Some implies {
            &&& node_id_present(h, symbol_id(fp, kind, caps[j]->0))
            &&& rel_id_present(h, contains_rel_id(file_id, symbol_id(fp, kind, caps[j]->0)))
        } by {
            if j < front.len() {
                assert(front[j] == caps[j]);
                lemma_grows_present(h0, h, symbol_id(fp, kind, caps[j]->0), contains_rel_id(file_id, symbol_id(fp, kind, caps[j]->0)));
            }
        }
    }
}

/// After the patterns are searched, every name that any of them captures
/// has its symbol node, of that pattern's kind, and CONTAINS relationship.
proof fn lemma_with_pattern_symbols(
    g: GraphView,
    file_id: Seq<char>,
    fp: Seq<char>,
    content: Seq<char>,
    pats: Seq<(NodeKind, Seq<char>)>,
)
    ensures
        grows(g, with_pattern_symbols(g, file_id, fp, content, pats)),
        forall|k: int, j: int| 0 <= k < pats.len() && regex_group1_captures(#[trigger] pats[k].1, content) is Some
            && 0 <= j < (regex_group1_captures(pats[k].1, content)->0).len()
            && (#[trigger] (regex_group1_captures(pats[k].1, content)->0)[j]) is Some ==> {
            &&& node_id_present(
                with_pattern_symbols(g, file_id, fp, content, pats),
                symbol_id(fp, pats[k].0, (regex_group1_captures(pats[k].1, content)->0)[j]->0),
            )
            &&& rel_id_present(
                with_pattern_symbols(g, file_id, fp, content, pats),
                contains_rel_id(file_id, symbol_id(fp, pats[k].0, (regex_group1_captures(pats[k].1, content)->0)[j]->0)),
            )
        },
    decreases pats.len(),
{
    if pats.len() > 0 {
        let front = pats.drop_last();
        lemma_with_pattern_symbols(g, file_id, fp, content, front);
        let h0 = with_pattern_symbols(g, file_id, fp, content, front);
        let h = with_pattern_symbols(g, file_id, fp, content, pats);
        match regex_group1_captures(pats.last().1, content) {
            Some(caps) => {
                lemma_with_captured(h0, file_id, fp, pats.last().0, caps);
            },
            None => {
                assert(h == h0);
            },
        }
        assert(grows(h0, h));
        lemma_grows_trans(g, h0, h);
        assert forall|k: int, j: int| 0 <= k < pats.len() && regex_group1_captures(#[trigger] pats[k].1, content) is Some
            && 0 <= j < (regex_group1_captures(pats[k].1, content)->0).len()
            && (#[trigger] (regex_group1_captures(pats[k].1, content)->0)[j]) is Some implies {
            &&& node_id_present(h, symbol_id(fp, pats[k].0, (regex_group1_captures(pats[k].1, content)->0)[j]->0))
            &&& rel_id_present(h, contains_rel_id(file_id, symbol_id(fp, pats[k].0, (regex_group1_captures(pats[k].1, content)->0)[j]->0)))
        } by {
            let caps = regex_group1_captures(pats[k].1, content)->0;
            if k < front.len() {
                assert(front[k] == pats[k]);
                assert(front[k].1 == pats[k].1);
                lemma_grows_present(h0, h, symbol_id(fp, pats[k].0, caps[j]->0), contains_rel_id(file_id, symbol_id(fp, pats[k].0, caps[j]->0)));
            } else {
                assert(pats[k] == pats.last());
            }
        }
    }
}

/// Whether files of extension `ext` are searched with `pattern` for
/// symbols of kind `kind`, whose ids carry the label `label`: TypeScript
/// for functions (`fn`), classes (`class`), interfaces (`interface`), type
/// aliases (`type`) and enums (`enum`); JavaScript for functions and
/// classes; Python for `def` functions and classes.
pub open spec fn searched_with(ext: Seq<char>, kind: NodeKind, label: Seq<char>, pattern: Seq<char>) -> bool {
    ||| (ext == "ts"@ || ext == "tsx"@) && (
        (kind == NodeKind::Function && label == "fn"@ && pattern == FUNCTION_PATTERN@)
        || (kind == NodeKind::Class && label == "class"@ && pattern == CLASS_PATTERN@)
        || (kind == NodeKind::Interface && label == "interface"@ && pattern == INTERFACE_PATTERN@)
        || (kind == NodeKind::TypeAlias && label == "type"@ && pattern == TYPE_ALIAS_PATTERN@)
        || (kind == NodeKind::Enum && label == "enum"@ && pattern == ENUM_PATTERN@))
    ||| (ext == "js"@ || ext == "jsx"@) && (
        (kind == NodeKind::Function && label == "fn"@ && pattern == FUNCTION_PATTERN@)
        || (kind == NodeKind::Class && label == "class"@ && pattern == CLASS_PATTERN@))
    ||| ext == "py"@ && (
        (kind == NodeKind::Function && label == "fn"@ && pattern == PY_DEF_PATTERN@)
        || (kind == NodeKind::Class && label == "class"@ && pattern == PY_CLASS_PATTERN@))
}

/// Law: searching a TypeScript, JavaScript or Python file finds every name
/// that each of its patterns captures. For each such pattern and each name
/// it captures in the text, the graph afterwards holds the symbol node
/// `sym:{file}:{label}:{name}` and the relationship
/// `contains:file:{file}:sym:{file}:{label}:{name}` from the file's node to
/// it, and keeps everything it held; so, for instance, `class X {}` in a
/// `.js` file gives the Class symbol `sym:{file}:class:X`.
pub proof fn law_pattern_symbols_found(
    g: GraphView,
    h: GraphView,
    fp: Seq<char>,
    content: Seq<char>,
    kind: NodeKind,
    label: Seq<char>,
    pattern: Seq<char>,
    caps: Seq<Option<Seq<char>>>,
    j: int,
)
    requires
        symbols_extracted(g, h, fp, content),
        searched_with(extension(fp), kind, label, pattern),
        regex_group1_captures(pattern, content) == Some(caps),
        0 <= j < caps.len(),
        caps[j] is Some,
    ensures
        grows(g, h),
        node_id_present(h, "sym:"@ + fp + ":"@ + label + ":"@ + caps[j]->0),
        rel_id_present(h, "contains:"@ + ("file:"@ + fp) + ":"@ + ("sym:"@ + fp + ":"@ + label + ":"@ + caps[j]->0)),
{
    reveal_strlit("rs");
    reveal_strlit("ts");
    reveal_strlit("tsx");
    reveal_strlit("js");
    reveal_strlit("jsx");
    reveal_strlit("py");
    let e = extension(fp);
    if e == "ts"@ || e == "tsx"@ {
        assert(e[0] == 't');
    } else if e == "js"@ || e == "jsx"@ {
        assert(e[0] == 'j');
    } else {
        assert(e[0] == 'p');
    }
    assert(e[0] != "rs"@[0]);
    assert(e != "rs"@);
    let pats = patterns_for(e);
    if e[0] == 't' {
        assert(e == "ts"@ || e == "tsx"@);
    } else if e[0] == 'j' {
        assert(e != "ts"@ && e != "tsx"@);
        assert(e == "js"@ || e == "jsx"@);
    } else {
        assert(e != "ts"@ && e != "tsx"@ && e != "js"@ && e != "jsx"@);
    }
    assert(h == with_pattern_symbols(g, file_node_id(fp), fp, content, pats));
    lemma_with_pattern_symbols(g, file_node_id(fp), fp, content, pats);
    let k: int = match kind {
        NodeKind::Function => 0,
        NodeKind::Class => 1,
        NodeKind::Interface => 2,
        NodeKind::TypeAlias => 3,
        _ => 4,
    };
    assert(0 <= k < pats.len());
    assert(pats[k].0 == kind && pats[k].1 == pattern);
    assert(regex_group1_captures(pats[k].1, content) is Some);
    assert((regex_group1_captures(pats[k].1, content)->0)[j] is Some);
    assert(kind_label(kind) == label);
}

} // verus!
