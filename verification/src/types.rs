//! The data that flows through the library: graph nodes and relationships,
//! repository metadata and pipeline progress reports.

use vstd::prelude::*;
use crate::text::same_text;

verus! {

/// What a graph node stands for.
#[derive(Debug, Clone, Copy, PartialEq, Eq, Structural, Hash)]
pub enum NodeKind {
    File,
    Folder,
    Function,
    Class,
    Interface,
    TypeAlias,
    Enum,
    Variable,
    Import,
    Export,
    Route,
    Tool,
    Process,
    Community,
    Markdown,
    CobolProgram,
    CobolParagraph,
    CobolSection,
    CobolCopybook,
    Struct,
    Trait,
    Impl,
    Unknown,
}

/// What a directed relationship between two nodes expresses.
#[derive(Debug, Clone, Copy, PartialEq, Eq, Structural, Hash)]
pub enum RelationshipKind {
    Contains,
    Imports,
    Calls,
    Extends,
    Implements,
    Uses,
    Exports,
    HasRoute,
    HasTool,
    PartOfProcess,
    PartOfCommunity,
    MethodOverrides,
    DependsOn,
}

/// The value that a property list holds under `key`: the first entry with
/// that key, as the lookup methods read it.
pub open spec fn property_of(props: Seq<(String, String)>, key: Seq<char>) -> Option<Seq<char>>
    decreases props.len(),
{
    if props.len() == 0 {
        None
    } else if props[0].0@ == key {
        Some(props[0].1@)
    } else {
        property_of(props.drop_first(), key)
    }
}

/// The key under which nodes record the repository-relative file they
/// belong to.
pub open spec fn file_path_key() -> Seq<char> {
    seq!['f', 'i', 'l', 'e', 'P', 'a', 't', 'h']
}

/// The file a node belongs to, if it records one.
pub open spec fn node_file_path(n: GraphNode) -> Option<Seq<char>> {
    property_of(n.properties@, file_path_key())
}

/// Builds the string `filePath`.
pub fn file_path_key_string() -> (r: String)
    ensures
        r@ == file_path_key(),
{
    let mut s = String::new();
    crate::text::push_str(&mut s, "file");
    crate::text::push_str(&mut s, "Path");
    proof {
        reveal_strlit("file");
        reveal_strlit("Path");
        assert(s@ =~= file_path_key());
    }
    s
}

/// Looks a key up in a property list.
pub fn find_property<'a>(props: &'a Vec<(String, String)>, key: &str) -> (r: Option<&'a String>)
    ensures
        match r {
            Some(v) => property_of(props@, key@) == Some(v@),
            None => property_of(props@, key@) is None,
        },
{
    let mut i: usize = 0;
    assert(props@.skip(0) =~= props@);
    while i < props.len()
        invariant
            0 <= i <= props@.len(),
            property_of(props@, key@) == property_of(props@.skip(i as int), key@),
        decreases props@.len() - i,
    {
        proof {
            assert(props@.skip(i as int).drop_first() =~= props@.skip(i + 1));
        }
        if same_text(props[i].0.as_str(), key) {
            return Some(&props[i].1);
        }
        i = i + 1;
    }
    None
}

/// The plain value of a node: its id, kind, name and property list.
pub struct NodeView {
    pub id: Seq<char>,
    pub kind: NodeKind,
    pub name: Seq<char>,
    pub properties: Seq<(Seq<char>, Seq<char>)>,
}

/// The plain value of a relationship.
pub struct RelView {
    pub id: Seq<char>,
    pub kind: RelationshipKind,
    pub source_id: Seq<char>,
    pub target_id: Seq<char>,
    pub properties: Seq<(Seq<char>, Seq<char>)>,
}

/// The plain value of a property list.
pub open spec fn props_view(p: Seq<(String, String)>) -> Seq<(Seq<char>, Seq<char>)> {
    p.map_values(|e: (String, String)| (e.0@, e.1@))
}

/// A node of the knowledge graph.
#[derive(Debug, Clone)]
pub struct GraphNode {
    pub id: String,
    pub kind: NodeKind,
    pub name: String,
    /// String-valued properties, looked up by key (first entry wins).
    pub properties: Vec<(String, String)>,
}

/// A directed relationship of the knowledge graph.
#[derive(Debug, Clone)]
pub struct GraphRelationship {
    pub id: String,
    pub kind: RelationshipKind,
    pub source_id: String,
    pub target_id: String,
    pub properties: Vec<(String, String)>,
}

impl View for GraphNode {
    type V = NodeView;

    open spec fn view(&self) -> NodeView {
        NodeView { id: self.id@, kind: self.kind, name: self.name@, properties: props_view(self.properties@) }
    }
}

impl View for GraphRelationship {
    type V = RelView;

    open spec fn view(&self) -> RelView {
        RelView {
            id: self.id@,
            kind: self.kind,
            source_id: self.source_id@,
            target_id: self.target_id@,
            properties: props_view(self.properties@),
        }
    }
}

impl GraphNode {
    /// A node without properties.
    pub fn new(id: &str, kind: NodeKind, name: &str) -> (r: GraphNode)
        ensures
            r.id@ == id@,
            r.kind == kind,
            r.name@ == name@,
            r.properties@.len() == 0,
    {
        GraphNode { id: id.to_owned(), kind, name: name.to_owned(), properties: Vec::new() }
    }

    /// The node with `key` set to `value`: an entry with that key gets the
    /// new value, else the pair is appended.
    pub fn with_property(self, key: &str, value: &str) -> (r: GraphNode)
        ensures
            r.id == self.id,
            r.kind == self.kind,
            r.name == self.name,
            property_of(r.properties@, key@) == Some(value@),
            forall|k: Seq<char>| k != key@ ==> property_of(r.properties@, k) == property_of(self.properties@, k),
            (forall|j: int| 0 <= j < self.properties@.len() ==> self.properties@[j].0@ != key@)
                ==> props_view(r.properties@) == props_view(self.properties@).push((key@, value@)),
    {
        let mut node = self;
        let ghost old_props = node.properties@;
        let mut i: usize = 0;
        while i < node.properties.len()
            invariant
                node.properties@ == old_props,
                old_props == self.properties@,
                node.id == self.id,
                node.kind == self.kind,
                node.name == self.name,
                0 <= i <= old_props.len(),
                forall|j: int| 0 <= j < i ==> old_props[j].0@ != key@,
            decreases old_props.len() - i,
        {
            if same_text(node.properties[i].0.as_str(), key) {
                let ghost before = node.properties@;
                let entry = (key.to_owned(), value.to_owned());
                let ghost e = entry;
                node.properties.set(i, entry);
                proof {
                    lemma_property_update(before, i as int, e, key@);
                    assert(node.properties@ == before.update(i as int, e));
                    assert forall|k: Seq<char>| k != key@ implies property_of(node.properties@, k) == property_of(self.properties@, k) by {
                        assert(property_of(before.update(i as int, e), k) == property_of(before, k));
                    }
                    assert(self.properties@[i as int].0@ == key@);
                }
                return node;
            }
            i = i + 1;
        }
        let ghost before = node.properties@;
        let entry = (key.to_owned(), value.to_owned());
        let ghost e = entry;
        node.properties.push(entry);
        proof {
            lemma_property_push(before, e, key@);
            assert(props_view(before.push(e)) =~= props_view(before).push((key@, value@)));
        }
        node
    }

    /// The file this node belongs to, if it records one.
    pub fn file_path(&self) -> (r: Option<&String>)
        ensures
            match r {
                Some(v) => node_file_path(*self) == Some(v@),
                None => node_file_path(*self) is None,
            },
    {
        let key = file_path_key_string();
        find_property(&self.properties, key.as_str())
    }
}

proof fn lemma_property_update(props: Seq<(String, String)>, i: int, entry: (String, String), key: Seq<char>)
    requires
        0 <= i < props.len(),
        entry.0@ == key,
        props[i].0@ == key,
        forall|j: int| 0 <= j < i ==> props[j].0@ != key,
    ensures
        property_of(props.update(i, entry), key) == Some(entry.1@),
        forall|k: Seq<char>| k != key ==> property_of(props.update(i, entry), k) == property_of(props, k),
    decreases i,
{
    let u = props.update(i, entry);
    if i > 0 {
        lemma_property_update(props.drop_first(), i - 1, entry, key);
        assert(u.drop_first() =~= props.drop_first().update(i - 1, entry));
        assert(u[0] == props[0]);
    } else {
        assert(u.drop_first() =~= props.drop_first());
        assert(u[0] == entry);
    }
    assert forall|k: Seq<char>| k != key implies property_of(u, k) == property_of(props, k) by {
        if i > 0 {
            assert(u.drop_first() =~= props.drop_first().update(i - 1, entry));
            assert(u[0] == props[0]);
            if props[0].0@ != k {
                assert(property_of(u, k) == property_of(u.drop_first(), k));
                assert(property_of(props, k) == property_of(props.drop_first(), k));
            }
        } else {
            assert(u.drop_first() =~= props.drop_first());
            assert(u[0] == entry);
            assert(property_of(u, k) == property_of(u.drop_first(), k));
            assert(property_of(props, k) == property_of(props.drop_first(), k));
        }
    }
}

proof fn lemma_property_push(props: Seq<(String, String)>, entry: (String, String), key: Seq<char>)
    requires
        entry.0@ == key,
        forall|j: int| 0 <= j < props.len() ==> props[j].0@ != key,
    ensures
        property_of(props.push(entry), key) == Some(entry.1@),
        forall|k: Seq<char>| k != key ==> property_of(props.push(entry), k) == property_of(props, k),
    decreases props.len(),
{
    if props.len() > 0 {
        lemma_property_push(props.drop_first(), entry, key);
        assert(props.push(entry).drop_first() =~= props.drop_first().push(entry));
    } else {
        assert(props.push(entry).drop_first() =~= props);
    }
    assert forall|k: Seq<char>| k != key implies property_of(props.push(entry), k) == property_of(props, k) by {
        if props.len() > 0 {
            assert(props.push(entry).drop_first() =~= props.drop_first().push(entry));
            assert(props.push(entry)[0] == props[0]);
            if props[0].0@ != k {
                assert(property_of(props.push(entry), k) == property_of(props.drop_first().push(entry), k));
                assert(property_of(props, k) == property_of(props.drop_first(), k));
            }
        } else {
            assert(props.push(entry).drop_first() =~= props);
            assert(props.push(entry)[0] == entry);
            assert(property_of(props.push(entry), k) == property_of(props.push(entry).drop_first(), k));
            assert(property_of(props, k) == None::<Seq<char>>);
        }
    }
}

impl GraphRelationship {
    /// A relationship without properties.
    pub fn new(id: &str, kind: RelationshipKind, source_id: &str, target_id: &str) -> (r: GraphRelationship)
        ensures
            r.id@ == id@,
            r.kind == kind,
            r.source_id@ == source_id@,
            r.target_id@ == target_id@,
            r.properties@.len() == 0,
    {
        GraphRelationship {
            id: id.to_owned(),
            kind,
            source_id: source_id.to_owned(),
            target_id: target_id.to_owned(),
            properties: Vec::new(),
        }
    }
}


/// Metadata recorded for an indexed repository.
#[derive(Debug, Clone)]
pub struct RepoMeta {
    pub name: String,
    pub path: String,
    pub repo_path: String,
    pub indexed_at: String,
    pub last_commit: Option<String>,
    pub stats: RepoStats,
}

/// Size figures of an indexed repository.
#[derive(Debug, Clone, Copy, PartialEq, Eq, Structural)]
pub struct RepoStats {
    pub files: usize,
    pub nodes: usize,
    pub edges: usize,
    pub communities: usize,
    pub processes: usize,
}

impl RepoStats {
    /// All figures zero.
    pub fn zero() -> (r: RepoStats)
        ensures
            r.files == 0 && r.nodes == 0 && r.edges == 0 && r.communities == 0 && r.processes == 0,
    {
        RepoStats { files: 0, nodes: 0, edges: 0, communities: 0, processes: 0 }
    }
}

fn copy_opt_string(s: &Option<String>) -> (r: Option<String>)
    ensures
        r == *s,
{
    match s {
        Some(x) => Some(x.clone()),
        None => None,
    }
}

impl RepoMeta {
    /// A field-by-field copy.
    pub fn duplicate(&self) -> (r: RepoMeta)
        ensures
            r == *self,
    {
        RepoMeta {
            name: self.name.clone(),
            path: self.path.clone(),
            repo_path: self.repo_path.clone(),
            indexed_at: self.indexed_at.clone(),
            last_commit: copy_opt_string(&self.last_commit),
            stats: self.stats,
        }
    }
}

/// The phase that a progress report comes from.
#[derive(Debug, Clone, Copy, PartialEq, Eq, Structural)]
pub enum PipelinePhase {
    Extracting,
    Structure,
    Markdown,
    Cobol,
    Parse,
    Routes,
    Tools,
    Orm,
    CrossFile,
    Mro,
    Communities,
    Processes,
    Persisting,
    Done,
}

/// A progress report of the ingestion pipeline.
#[derive(Debug, Clone)]
pub struct PipelineProgress {
    pub phase: PipelinePhase,
    /// Overall completion, 0 to 100.
    pub percent: u8,
    pub message: String,
    pub detail: Option<String>,
    pub stats: Option<PipelineStats>,
}

impl PipelineProgress {
    /// A field-by-field copy.
    pub fn duplicate(&self) -> (r: PipelineProgress)
        ensures
            r == *self,
    {
        PipelineProgress {
            phase: self.phase,
            percent: self.percent,
            message: self.message.clone(),
            detail: copy_opt_string(&self.detail),
            stats: self.stats,
        }
    }
}

/// Counters carried by a progress report.
#[derive(Debug, Clone, Copy, PartialEq, Eq, Structural)]
pub struct PipelineStats {
    pub files_processed: usize,
    pub total_files: usize,
    pub nodes_created: usize,
    pub relationships_created: usize,
}

/// A progress report with the given fields.
pub fn progress_report(
    phase: PipelinePhase,
    percent: u8,
    message: &str,
    detail: Option<String>,
    stats: Option<PipelineStats>,
) -> (r: PipelineProgress)
    ensures
        r.phase == phase,
        r.percent == percent,
        r.message@ == message@,
        r.detail == detail,
        r.stats == stats,
{
    PipelineProgress { phase, percent, message: message.to_owned(), detail, stats }
}

/// Whether `p` is a report of `phase` at `percent` with message `msg`, no
/// detail and the given counters.
pub open spec fn is_report(
    p: PipelineProgress,
    phase: PipelinePhase,
    percent: u8,
    msg: Seq<char>,
    stats: Option<PipelineStats>,
) -> bool {
    &&& p.phase == phase
    &&& p.percent == percent
    &&& p.message@ == msg
    &&& p.detail is None
    &&& p.stats == stats
}

/// Counters with the given values.
pub fn stats_of(files_processed: usize, total_files: usize, nodes_created: usize, relationships_created: usize) -> (r: PipelineStats)
    ensures
        r == (PipelineStats { files_processed, total_files, nodes_created, relationships_created }),
{
    PipelineStats { files_processed, total_files, nodes_created, relationships_created }
}

} // verus!
