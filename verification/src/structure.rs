//! The structure phase: a File node for every scanned path, a Folder node for
//! every directory above it, and a CONTAINS relationship from each folder to
//! each of its children, up to a virtual root folder `/`.

use vstd::prelude::*;
use crate::graph::{GraphView, KnowledgeGraph, view_add_node, view_add_rel};
use crate::paths::{file_name_of, path_file_name};
use crate::scan::{ScanOutput, ScannedFile};
use crate::text::{chars_of, concat2, find_last, last_index, lemma_last_index, string_from, push_str};
use crate::types::{
    PipelineStats, is_report,
    GraphNode, GraphRelationship, NodeKind, NodeView, PipelinePhase, PipelineProgress, RelView,
    RelationshipKind, file_path_key, file_path_key_string, progress_report, stats_of,
};

verus! {

/// `file:{path}`.
pub open spec fn file_node_id(p: Seq<char>) -> Seq<char> {
    "file:"@ + p
}

/// `folder:{path}`.
pub open spec fn folder_node_id(d: Seq<char>) -> Seq<char> {
    "folder:"@ + d
}

/// The id of the virtual root folder, `folder:/`.
pub open spec fn root_folder_id() -> Seq<char> {
    "folder:/"@
}

/// `contains:{parent}:{child}`.
pub open spec fn contains_rel_id(parent: Seq<char>, child: Seq<char>) -> Seq<char> {
    "contains:"@ + parent + ":"@ + child
}

/// The File node of a path: named by the path's file name (the whole path
/// when it has none) and recording the path as its file.
pub open spec fn file_view(p: Seq<char>) -> NodeView {
    NodeView {
        id: file_node_id(p),
        kind: NodeKind::File,
        name: match path_file_name(p) {
            Some(n) => n,
            None => p,
        },
        properties: seq![(file_path_key(), p)],
    }
}

/// A Folder node without properties.
pub open spec fn folder_view(id: Seq<char>, name: Seq<char>) -> NodeView {
    NodeView { id, kind: NodeKind::Folder, name, properties: seq![] }
}

/// A CONTAINS relationship from `parent` to `child`.
pub open spec fn contains_view(parent: Seq<char>, child: Seq<char>) -> RelView {
    RelView {
        id: contains_rel_id(parent, child),
        kind: RelationshipKind::Contains,
        source_id: parent,
        target_id: child,
        properties: seq![],
    }
}

/// The name of a folder: the part of its path after the last `/`.
pub open spec fn folder_name(d: Seq<char>) -> Seq<char> {
    match last_index(d, '/') {
        Some(i) => d.subrange(i + 1, d.len() as int),
        None => d,
    }
}

/// Links `child`, which stands at path `rest`, into the folder tree: the
/// folder of `rest` (the text before its last `/`) is added with a
/// CONTAINS relationship to `child`, and so on upwards; a path without `/`
/// hangs under the root folder.
pub open spec fn link_upwards(g: GraphView, child: Seq<char>, rest: Seq<char>) -> GraphView
    decreases rest.len(),
{
    match last_index(rest, '/') {
        None => view_add_rel(
            view_add_node(g, folder_view(root_folder_id(), "/"@)),
            contains_view(root_folder_id(), child),
        ),
        Some(i) => {
            proof {
                lemma_last_index(rest, '/');
            }
            let parent = rest.take(i);
            let fid = folder_node_id(parent);
            link_upwards(
                view_add_rel(view_add_node(g, folder_view(fid, folder_name(parent))), contains_view(fid, child)),
                fid,
                parent,
            )
        },
    }
}

/// The graph after the structure of one file path is added.
pub open spec fn add_file_structure(g: GraphView, p: Seq<char>) -> GraphView {
    link_upwards(view_add_node(g, file_view(p)), file_node_id(p), p)
}

/// The graph after the structure of every path, in order, is added.
pub open spec fn add_structure(g: GraphView, paths: Seq<Seq<char>>) -> GraphView
    decreases paths.len(),
{
    if paths.len() == 0 {
        g
    } else {
        add_file_structure(add_structure(g, paths.drop_last()), paths.last())
    }
}

/// The name of the folder whose path is `v[..hi]`.
fn folder_name_string(v: &Vec<char>, hi: usize) -> (r: String)
    requires
        hi <= v@.len(),
    ensures
        r@ == folder_name(v@.take(hi as int)),
{
    proof {
        lemma_last_index(v@.take(hi as int), '/');
    }
    match find_last(v, hi, '/') {
        Some(i) => {
            let r = string_from(v, i + 1, hi);
            assert(r@ =~= v@.take(hi as int).subrange(i + 1, hi as int));
            r
        },
        None => {
            let r = string_from(v, 0, hi);
            assert(r@ =~= v@.take(hi as int));
            r
        },
    }
}

/// Adds the File node of `file_path`, the Folder nodes above it and the
/// CONTAINS relationships between them.
fn add_path_structure(graph: &mut KnowledgeGraph, file_path: &String)
    ensures
        final(graph).gview() == add_file_structure(old(graph).gview(), file_path@),
{
    let file_id = concat2("file:", file_path.as_str());
    let file_name = match file_name_of(file_path.as_str()) {
        Some(n) => n,
        None => file_path.clone(),
    };
    let key = file_path_key_string();
    let file_node = GraphNode::new(file_id.as_str(), NodeKind::File, file_name.as_str()).with_property(
        key.as_str(),
        file_path.as_str(),
    );
    proof {
        assert(file_node@.properties =~= seq![(file_path_key(), file_path@)]);
        assert(file_node@ == file_view(file_path@));
    }
    let ghost target = add_file_structure(old(graph).gview(), file_path@);
    graph.add_node(file_node);
    let chars = chars_of(file_path.as_str());
    let mut child = file_id;
    let mut rest_len: usize = chars.len();
    assert(chars@.take(rest_len as int) =~= file_path@);
    loop
        invariant_except_break
            chars@ == file_path@,
            rest_len <= chars@.len(),
            link_upwards(graph.gview(), child@, chars@.take(rest_len as int)) == target,
        ensures
            graph.gview() == target,
        decreases rest_len,
    {
        let ghost rest = chars@.take(rest_len as int);
        proof {
            lemma_last_index(rest, '/');
        }
        match find_last(&chars, rest_len, '/') {
            None => {
                let root_id = concat2("folder:", "/");
                proof {
                    reveal_strlit("folder:");
                    reveal_strlit("/");
                    reveal_strlit("folder:/");
                    assert(root_id@ =~= root_folder_id());
                }
                let root = GraphNode::new(root_id.as_str(), NodeKind::Folder, "/");
                assert(root@.properties =~= seq![]);
                assert(root@ == folder_view(root_folder_id(), "/"@));
                graph.add_node(root);
                let rel_id = concat4_ids(root_id.as_str(), child.as_str());
                let rel = GraphRelationship::new(rel_id.as_str(), RelationshipKind::Contains, root_id.as_str(), child.as_str());
                assert(rel@.properties =~= seq![]);
                assert(rel@ == contains_view(root_folder_id(), child@));
                graph.add_relationship(rel);
                break;
            },
            Some(idx) => {
                let parent = string_from(&chars, 0, idx);
                assert(parent@ =~= rest.take(idx as int));
                let folder_id = concat2("folder:", parent.as_str());
                let fname = folder_name_string(&chars, idx);
                assert(chars@.take(idx as int) =~= rest.take(idx as int));
                let folder = GraphNode::new(folder_id.as_str(), NodeKind::Folder, fname.as_str());
                assert(folder@.properties =~= seq![]);
                assert(folder@ == folder_view(folder_node_id(rest.take(idx as int)), folder_name(rest.take(idx as int))));
                graph.add_node(folder);
                let rel_id = concat4_ids(folder_id.as_str(), child.as_str());
                let rel = GraphRelationship::new(rel_id.as_str(), RelationshipKind::Contains, folder_id.as_str(), child.as_str());
                assert(rel@.properties =~= seq![]);
                assert(rel@ == contains_view(folder_node_id(rest.take(idx as int)), child@));
                graph.add_relationship(rel);
                child = folder_id;
                rest_len = idx;
            },
        }
    }
}

/// `contains:{parent}:{child}`.
fn concat4_ids(parent: &str, child: &str) -> (r: String)
    ensures
        r@ == contains_rel_id(parent@, child@),
{
    crate::text::concat4("contains:", parent, ":", child)
}

/// Populates the graph with the File and Folder nodes of `all_paths` and
/// the CONTAINS relationships between them, path by path.
pub fn process_structure(graph: &mut KnowledgeGraph, all_paths: &Vec<String>)
    ensures
        final(graph).gview() == add_structure(old(graph).gview(), all_paths@.map_values(|s: String| s@)),
{
    let ghost ps = all_paths@.map_values(|s: String| s@);
    let mut i: usize = 0;
    while i < all_paths.len()
        invariant
            0 <= i <= all_paths@.len(),
            ps == all_paths@.map_values(|s: String| s@),
            graph.gview() == add_structure(old(graph).gview(), ps.take(i as int)),
        decreases all_paths@.len() - i,
    {
        add_path_structure(graph, &all_paths[i]);
        proof {
            assert(ps.take(i + 1).drop_last() =~= ps.take(i as int));
            assert(ps.take(i + 1).last() == all_paths@[i as int]@);
        }
        i = i + 1;
    }
    proof {
        assert(ps.take(all_paths@.len() as int) =~= ps);
    }
}


/// What the structure phase hands on: the scan results, and the distinct
/// paths.
pub struct StructureOutput {
    pub scanned_files: Vec<ScannedFile>,
    pub all_paths: Vec<String>,
    /// Each path once, in order of first occurrence.
    pub all_path_set: Vec<String>,
    pub total_files: usize,
}

/// Whether some string of `s` holds the text `x`.
pub open spec fn occurs(s: Seq<String>, x: Seq<char>) -> bool {
    exists|k: int| 0 <= k < s.len() && #[trigger] s[k]@ == x
}

/// No two strings of `s` hold the same text.
pub open spec fn distinct_texts(s: Seq<String>) -> bool {
    forall|i: int, j: int| 0 <= i < s.len() && 0 <= j < s.len() && i != j ==> s[i]@ != s[j]@
}

/// The distinct strings of `v`, in order of first occurrence.
pub fn distinct_strings(v: &Vec<String>) -> (r: Vec<String>)
    ensures
        distinct_texts(r@),
        forall|i: int| 0 <= i < r@.len() ==> occurs(v@, #[trigger] r@[i]@),
        forall|j: int| 0 <= j < v@.len() ==> occurs(r@, #[trigger] v@[j]@),
{
    let mut r: Vec<String> = Vec::new();
    let mut j: usize = 0;
    while j < v.len()
        invariant
            0 <= j <= v@.len(),
            distinct_texts(r@),
            forall|i: int| 0 <= i < r@.len() ==> occurs(v@.take(j as int), #[trigger] r@[i]@),
            forall|k: int| 0 <= k < j ==> occurs(r@, #[trigger] v@[k]@),
        decreases v@.len() - j,
    {
        let mut found = false;
        let mut i: usize = 0;
        while i < r.len()
            invariant
                0 <= i <= r@.len(),
                j < v@.len(),
                found ==> occurs(r@, v@[j as int]@),
                !found ==> forall|a: int| 0 <= a < i ==> r@[a]@ != v@[j as int]@,
            decreases r@.len() - i,
        {
            if r[i] == v[j] {
                found = true;
                assert(r@[i as int]@ == v@[j as int]@);
            }
            i = i + 1;
        }
        let ghost before = r@;
        if !found {
            r.push(v[j].clone());
            proof {
                assert(r@[r@.len() - 1]@ == v@[j as int]@);
            }
        }
        proof {
            assert forall|k: int| 0 <= k < j + 1 implies occurs(r@, #[trigger] v@[k]@) by {
                if k < j {
                    assert(occurs(before, v@[k]@));
                    let a = choose|a: int| 0 <= a < before.len() && #[trigger] before[a]@ == v@[k]@;
                    assert(r@[a] == before[a]);
                } else if !found {
                    assert(r@[r@.len() - 1]@ == v@[j as int]@);
                }
            }
            assert forall|i: int| 0 <= i < r@.len() implies occurs(v@.take(j + 1), #[trigger] r@[i]@) by {
                if i < before.len() {
                    assert(r@[i] == before[i]);
                    assert(occurs(v@.take(j as int), before[i]@));
                    let k = choose|k: int| 0 <= k < j && #[trigger] v@.take(j as int)[k]@ == before[i]@;
                    assert(v@.take(j + 1)[k] == v@.take(j as int)[k]);
                } else {
                    assert(v@.take(j + 1)[j as int] == v@[j as int]);
                }
            }
        }
        j = j + 1;
    }
    assert forall|i: int| 0 <= i < r@.len() implies occurs(v@, #[trigger] r@[i]@) by {
        assert(v@.take(j as int) =~= v@);
    }
    r
}

/// The structure phase.
pub struct StructurePhase;

impl StructurePhase {
    /// Adds the folder tree of the scanned paths to the graph (see
    /// `process_structure`), appending to `progress` a report before and one
    /// after.
    pub fn execute(scan: ScanOutput, graph: &mut KnowledgeGraph, progress: &mut Vec<PipelineProgress>) -> (r: StructureOutput)
        ensures
            final(graph).gview() == add_structure(old(graph).gview(), scan.all_paths@.map_values(|s: String| s@)),
            final(progress)@.len() == old(progress)@.len() + 2,
            final(progress)@.take(old(progress)@.len() as int) == old(progress)@,
            is_report(
                final(progress)@[old(progress)@.len() as int],
                PipelinePhase::Structure,
                15,
                "Analyzing project structure..."@,
                Some(PipelineStats {
                    files_processed: 0,
                    total_files: scan.total_files,
                    nodes_created: old(graph).node_list().len() as usize,
                    relationships_created: old(graph).rel_list().len() as usize,
                }),
            ),
            is_report(
                final(progress)@[old(progress)@.len() + 1int],
                PipelinePhase::Structure,
                20,
                "Project structure analyzed"@,
                Some(PipelineStats {
                    files_processed: scan.total_files,
                    total_files: scan.total_files,
                    nodes_created: final(graph).node_list().len() as usize,
                    relationships_created: final(graph).rel_list().len() as usize,
                }),
            ),
            r.scanned_files@ == scan.scanned_files@,
            r.all_paths@ == scan.all_paths@,
            r.total_files == scan.total_files,
            distinct_texts(r.all_path_set@),
            forall|i: int| 0 <= i < r.all_path_set@.len() ==> occurs(scan.all_paths@, #[trigger] r.all_path_set@[i]@),
            forall|j: int| 0 <= j < scan.all_paths@.len() ==> occurs(r.all_path_set@, #[trigger] scan.all_paths@[j]@),
    {
        let total_files = scan.total_files;
        progress.push(progress_report(
            PipelinePhase::Structure,
            15,
            "Analyzing project structure...",
            None,
            Some(stats_of(0, total_files, graph.node_count(), graph.relationship_count())),
        ));
        process_structure(graph, &scan.all_paths);
        progress.push(progress_report(
            PipelinePhase::Structure,
            20,
            "Project structure analyzed",
            None,
            Some(stats_of(total_files, total_files, graph.node_count(), graph.relationship_count())),
        ));
        let all_path_set = distinct_strings(&scan.all_paths);
        StructureOutput {
            scanned_files: scan.scanned_files,
            all_paths: scan.all_paths,
            all_path_set,
            total_files,
        }
    }
}


/// `h` keeps every node and relationship of `g`, in place, and may add more
/// after them.
pub open spec fn grows(g: GraphView, h: GraphView) -> bool {
    &&& g.nodes.len() <= h.nodes.len()
    &&& h.nodes.take(g.nodes.len() as int) == g.nodes
    &&& g.rels.len() <= h.rels.len()
    &&& h.rels.take(g.rels.len() as int) == g.rels
}

/// Whether some node of `g` has the id `id`.
pub open spec fn has_id(g: GraphView, id: Seq<char>) -> bool {
    exists|i: int| 0 <= i < g.nodes.len() && #[trigger] g.nodes[i].id == id
}

proof fn lemma_grows_trans(a: GraphView, b: GraphView, c: GraphView)
    requires
        grows(a, b),
        grows(b, c),
    ensures
        grows(a, c),
{
    assert(c.nodes.take(a.nodes.len() as int) =~= c.nodes.take(b.nodes.len() as int).take(a.nodes.len() as int));
    assert(c.rels.take(a.rels.len() as int) =~= c.rels.take(b.rels.len() as int).take(a.rels.len() as int));
}

proof fn lemma_grows_keeps_id(g: GraphView, h: GraphView, id: Seq<char>)
    requires
        grows(g, h),
        has_id(g, id),
    ensures
        has_id(h, id),
{
    let i = choose|i: int| 0 <= i < g.nodes.len() && #[trigger] g.nodes[i].id == id;
    assert(h.nodes.take(g.nodes.len() as int)[i] == h.nodes[i]);
}

proof fn lemma_add_grows(g: GraphView, n: NodeView, r: RelView)
    ensures
        grows(g, view_add_node(g, n)),
        grows(g, view_add_rel(g, r)),
        has_id(view_add_node(g, n), n.id),
{
    assert(g.nodes.push(n).take(g.nodes.len() as int) =~= g.nodes);
    assert(g.rels.push(r).take(g.rels.len() as int) =~= g.rels);
    assert(g.nodes.take(g.nodes.len() as int) =~= g.nodes);
    assert(g.rels.take(g.rels.len() as int) =~= g.rels);
    if !(exists|i: int| 0 <= i < g.nodes.len() && #[trigger] g.nodes[i].id == n.id) {
        assert(g.nodes.push(n)[g.nodes.len() as int].id == n.id);
    }
}

proof fn lemma_link_upwards_grows(g: GraphView, child: Seq<char>, rest: Seq<char>)
    ensures
        grows(g, link_upwards(g, child, rest)),
    decreases rest.len(),
{
    lemma_last_index(rest, '/');
    match last_index(rest, '/') {
        None => {
            let g1 = view_add_node(g, folder_view(root_folder_id(), "/"@));
            lemma_add_grows(g, folder_view(root_folder_id(), "/"@), contains_view(root_folder_id(), child));
            lemma_add_grows(g1, folder_view(root_folder_id(), "/"@), contains_view(root_folder_id(), child));
            lemma_grows_trans(g, g1, view_add_rel(g1, contains_view(root_folder_id(), child)));
        },
        Some(i) => {
            let parent = rest.take(i);
            let fid = folder_node_id(parent);
            let g1 = view_add_node(g, folder_view(fid, folder_name(parent)));
            let g2 = view_add_rel(g1, contains_view(fid, child));
            lemma_add_grows(g, folder_view(fid, folder_name(parent)), contains_view(fid, child));
            lemma_add_grows(g1, folder_view(fid, folder_name(parent)), contains_view(fid, child));
            lemma_grows_trans(g, g1, g2);
            lemma_link_upwards_grows(g2, fid, parent);
            lemma_grows_trans(g, g2, link_upwards(g2, fid, parent));
        },
    }
}

/// The structure phase only adds: every node and relationship already in
/// the graph stays, in place, and every scanned path ends up with its File
/// node.
pub proof fn law_structure_covers_paths(g: GraphView, paths: Seq<Seq<char>>)
    ensures
        grows(g, add_structure(g, paths)),
        forall|k: int| 0 <= k < paths.len() ==> has_id(add_structure(g, paths), file_node_id(#[trigger] paths[k])),
    decreases paths.len(),
{
    assert(g.nodes.take(g.nodes.len() as int) =~= g.nodes);
    assert(g.rels.take(g.rels.len() as int) =~= g.rels);
    if paths.len() > 0 {
        let front = paths.drop_last();
        let p = paths.last();
        let g0 = add_structure(g, front);
        law_structure_covers_paths(g, front);
        let g1 = view_add_node(g0, file_view(p));
        lemma_add_grows(g0, file_view(p), contains_view(root_folder_id(), p));
        lemma_link_upwards_grows(g1, file_node_id(p), p);
        let h = link_upwards(g1, file_node_id(p), p);
        lemma_grows_trans(g0, g1, h);
        lemma_grows_trans(g, g0, h);
        lemma_grows_keeps_id(g1, h, file_node_id(p));
        assert forall|k: int| 0 <= k < paths.len() implies has_id(h, file_node_id(#[trigger] paths[k])) by {
            if k < front.len() {
                assert(paths[k] == front[k]);
                lemma_grows_keeps_id(g0, h, file_node_id(front[k]));
            }
        }
    }
}


/// Whether some relationship of `g` has the id `id`.
pub open spec fn has_rel(g: GraphView, id: Seq<char>) -> bool {
    exists|i: int| 0 <= i < g.rels.len() && #[trigger] g.rels[i].id == id
}

/// Whether `child`, standing at path `rest`, is already linked into the
/// folder tree of `g`: every folder above it and every CONTAINS link on the
/// way up to the root folder is present.
pub open spec fn linked_upwards(g: GraphView, child: Seq<char>, rest: Seq<char>) -> bool
    decreases rest.len(),
{
    match last_index(rest, '/') {
        None => has_id(g, root_folder_id()) && has_rel(g, contains_rel_id(root_folder_id(), child)),
        Some(i) => {
            proof {
                lemma_last_index(rest, '/');
            }
            let parent = rest.take(i);
            let fid = folder_node_id(parent);
            has_id(g, fid) && has_rel(g, contains_rel_id(fid, child)) && linked_upwards(g, fid, parent)
        },
    }
}

/// Whether the structure of path `p` is all in `g`.
pub open spec fn structured(g: GraphView, p: Seq<char>) -> bool {
    has_id(g, file_node_id(p)) && linked_upwards(g, file_node_id(p), p)
}

proof fn lemma_grows_keeps_rel(g: GraphView, h: GraphView, id: Seq<char>)
    requires
        grows(g, h),
        has_rel(g, id),
    ensures
        has_rel(h, id),
{
    let i = choose|i: int| 0 <= i < g.rels.len() && #[trigger] g.rels[i].id == id;
    assert(h.rels.take(g.rels.len() as int)[i] == h.rels[i]);
}

proof fn lemma_add_rel_present(g: GraphView, r: RelView)
    ensures
        has_rel(view_add_rel(g, r), r.id),
{
    if !(exists|i: int| 0 <= i < g.rels.len() && #[trigger] g.rels[i].id == r.id) {
        assert(g.rels.push(r)[g.rels.len() as int].id == r.id);
    }
}

proof fn lemma_linked_grows(g: GraphView, h: GraphView, child: Seq<char>, rest: Seq<char>)
    requires
        grows(g, h),
        linked_upwards(g, child, rest),
    ensures
        linked_upwards(h, child, rest),
    decreases rest.len(),
{
    lemma_last_index(rest, '/');
    match last_index(rest, '/') {
        None => {
            lemma_grows_keeps_id(g, h, root_folder_id());
            lemma_grows_keeps_rel(g, h, contains_rel_id(root_folder_id(), child));
        },
        Some(i) => {
            let parent = rest.take(i);
            let fid = folder_node_id(parent);
            lemma_grows_keeps_id(g, h, fid);
            lemma_grows_keeps_rel(g, h, contains_rel_id(fid, child));
            lemma_linked_grows(g, h, fid, parent);
        },
    }
}

proof fn lemma_linked_noop(g: GraphView, child: Seq<char>, rest: Seq<char>)
    requires
        linked_upwards(g, child, rest),
    ensures
        link_upwards(g, child, rest) == g,
    decreases rest.len(),
{
    lemma_last_index(rest, '/');
    match last_index(rest, '/') {
        None => {},
        Some(i) => {
            let parent = rest.take(i);
            let fid = folder_node_id(parent);
            lemma_linked_noop(g, fid, parent);
        },
    }
}

proof fn lemma_link_establishes(g: GraphView, child: Seq<char>, rest: Seq<char>)
    ensures
        linked_upwards(link_upwards(g, child, rest), child, rest),
    decreases rest.len(),
{
    lemma_last_index(rest, '/');
    match last_index(rest, '/') {
        None => {
            let g1 = view_add_node(g, folder_view(root_folder_id(), "/"@));
            let c = contains_view(root_folder_id(), child);
            lemma_add_grows(g, folder_view(root_folder_id(), "/"@), c);
            lemma_add_grows(g1, folder_view(root_folder_id(), "/"@), c);
            lemma_grows_keeps_id(g1, view_add_rel(g1, c), root_folder_id());
            lemma_add_rel_present(g1, c);
        },
        Some(i) => {
            let parent = rest.take(i);
            let fid = folder_node_id(parent);
            let f = folder_view(fid, folder_name(parent));
            let c = contains_view(fid, child);
            let g1 = view_add_node(g, f);
            let g2 = view_add_rel(g1, c);
            lemma_add_grows(g, f, c);
            lemma_add_grows(g1, f, c);
            lemma_grows_keeps_id(g1, g2, fid);
            lemma_add_rel_present(g1, c);
            let h = link_upwards(g2, fid, parent);
            lemma_link_establishes(g2, fid, parent);
            lemma_link_upwards_grows(g2, fid, parent);
            lemma_grows_keeps_id(g2, h, fid);
            lemma_grows_keeps_rel(g2, h, contains_rel_id(fid, child));
        },
    }
}

proof fn lemma_file_structured(g: GraphView, p: Seq<char>)
    ensures
        structured(add_file_structure(g, p), p),
        grows(g, add_file_structure(g, p)),
{
    let g1 = view_add_node(g, file_view(p));
    lemma_add_grows(g, file_view(p), contains_view(root_folder_id(), p));
    lemma_link_upwards_grows(g1, file_node_id(p), p);
    lemma_link_establishes(g1, file_node_id(p), p);
    lemma_grows_keeps_id(g1, link_upwards(g1, file_node_id(p), p), file_node_id(p));
    lemma_grows_trans(g, g1, link_upwards(g1, file_node_id(p), p));
}

proof fn lemma_structured_all(g: GraphView, ps: Seq<Seq<char>>)
    ensures
        forall|k: int| 0 <= k < ps.len() ==> structured(add_structure(g, ps), #[trigger] ps[k]),
    decreases ps.len(),
{
    if ps.len() > 0 {
        let front = ps.drop_last();
        lemma_structured_all(g, front);
        let h0 = add_structure(g, front);
        let h = add_file_structure(h0, ps.last());
        lemma_file_structured(h0, ps.last());
        assert forall|k: int| 0 <= k < ps.len() implies structured(h, #[trigger] ps[k]) by {
            if k < front.len() {
                assert(ps[k] == front[k]);
                assert(structured(h0, front[k]));
                lemma_grows_keeps_id(h0, h, file_node_id(front[k]));
                lemma_linked_grows(h0, h, file_node_id(front[k]), front[k]);
            }
        }
    }
}

proof fn lemma_structure_noop(h: GraphView, qs: Seq<Seq<char>>)
    requires
        forall|k: int| 0 <= k < qs.len() ==> structured(h, #[trigger] qs[k]),
    ensures
        add_structure(h, qs) == h,
    decreases qs.len(),
{
    if qs.len() > 0 {
        let front = qs.drop_last();
        assert forall|k: int| 0 <= k < front.len() implies structured(h, #[trigger] front[k]) by {
            assert(front[k] == qs[k]);
        }
        lemma_structure_noop(h, front);
        let p = qs.last();
        assert(structured(h, qs[qs.len() - 1]));
        lemma_linked_noop(h, file_node_id(p), p);
    }
}

/// The structure step is idempotent: running it a second time on the same
/// paths leaves the graph as the first run left it.
pub proof fn law_structure_idempotent(g: GraphView, paths: Seq<Seq<char>>)
    ensures
        add_structure(add_structure(g, paths), paths) == add_structure(g, paths),
{
    lemma_structured_all(g, paths);
    lemma_structure_noop(add_structure(g, paths), paths);
}

} // verus!
