//! The cross-file phase: an import node that records a file which has a
//! File node in the graph is linked to it by an IMPORTS relationship from
//! the file.

use vstd::prelude::*;
use crate::graph::{GraphView, KnowledgeGraph, has_node_id, view_add_rel};
use crate::parse::ParseOutput;
use crate::structure::file_node_id;
use crate::text::{concat2, concat4};
use crate::types::{
    GraphNode, GraphRelationship, NodeKind, PipelinePhase, PipelineProgress, PipelineStats, RelView,
    RelationshipKind, is_report, node_file_path, progress_report, stats_of,
};

verus! {

/// `imports:{file}:{import id}`.
pub open spec fn imports_rel_id(fp: Seq<char>, import_id: Seq<char>) -> Seq<char> {
    "imports:"@ + fp + ":"@ + import_id
}

/// The IMPORTS relationship that an import node gets, if any: it must be an
/// Import node recording a file whose File node is among `nodes`.
pub open spec fn import_link(nodes: Seq<GraphNode>, n: GraphNode) -> Option<RelView> {
    if n.kind == NodeKind::Import {
        match node_file_path(n) {
            Some(fp) => if has_node_id(nodes, file_node_id(fp)) {
                Some(
                    RelView {
                        id: imports_rel_id(fp, n.id@),
                        kind: RelationshipKind::Imports,
                        source_id: file_node_id(fp),
                        target_id: n.id@,
                        properties: seq![],
                    },
                )
            } else {
                None
            },
            None => None,
        }
    } else {
        None
    }
}

/// The IMPORTS relationships for the nodes `s`, in order, resolved against
/// `nodes`.
pub open spec fn import_links(nodes: Seq<GraphNode>, s: Seq<GraphNode>) -> Seq<RelView>
    decreases s.len(),
{
    if s.len() == 0 {
        seq![]
    } else {
        let rest = import_links(nodes, s.drop_last());
        match import_link(nodes, s.last()) {
            Some(r) => rest.push(r),
            None => rest,
        }
    }
}

/// The graph after each relationship value is added, in order.
pub open spec fn with_rels(g: GraphView, rs: Seq<RelView>) -> GraphView
    decreases rs.len(),
{
    if rs.len() == 0 {
        g
    } else {
        view_add_rel(with_rels(g, rs.drop_last()), rs.last())
    }
}

/// The cross-file phase.
pub struct CrossFilePhase;

impl CrossFilePhase {
    /// Links import nodes to the File nodes of the files they record (see
    /// `import_link`), appending a report to `progress` before and after.
    pub fn execute(parse: ParseOutput, graph: &mut KnowledgeGraph, progress: &mut Vec<PipelineProgress>)
        ensures
            final(graph).gview() == with_rels(
                old(graph).gview(),
                import_links(old(graph).node_list(), old(graph).node_list()),
            ),
            final(progress)@.len() == old(progress)@.len() + 2,
            final(progress)@.take(old(progress)@.len() as int) == old(progress)@,
            is_report(
                final(progress)@[old(progress)@.len() as int],
                PipelinePhase::CrossFile,
                70,
                "Resolving cross-file references..."@,
                Some(PipelineStats {
                    files_processed: parse.total_files,
                    total_files: parse.total_files,
                    nodes_created: old(graph).node_list().len() as usize,
                    relationships_created: old(graph).rel_list().len() as usize,
                }),
            ),
            is_report(
                final(progress)@[old(progress)@.len() + 1int],
                PipelinePhase::CrossFile,
                80,
                "Cross-file references resolved"@,
                Some(PipelineStats {
                    files_processed: parse.total_files,
                    total_files: parse.total_files,
                    nodes_created: final(graph).node_list().len() as usize,
                    relationships_created: final(graph).rel_list().len() as usize,
                }),
            ),
    {
        progress.push(progress_report(
            PipelinePhase::CrossFile,
            70,
            "Resolving cross-file references...",
            None,
            Some(stats_of(parse.total_files, parse.total_files, graph.node_count(), graph.relationship_count())),
        ));
        let ghost nodes0 = graph.node_list();
        let ghost g0 = graph.gview();
        let mut new_rels: Vec<GraphRelationship> = Vec::new();
        let n = graph.node_count();
        let mut i: usize = 0;
        while i < n
            invariant
                graph.node_list() == nodes0,
                graph.gview() == g0,
                n == nodes0.len(),
                0 <= i <= n,
                new_rels@.map_values(|r: GraphRelationship| r@) == import_links(nodes0, nodes0.take(i as int)),
            decreases n - i,
        {
            proof {
                assert(nodes0.take(i + 1).drop_last() =~= nodes0.take(i as int));
            }
            let node = &graph.nodes()[i];
            if node.kind == NodeKind::Import {
                match node.file_path() {
                    Some(fp) => {
                        let file_node_id = concat2("file:", fp.as_str());
                        if graph.contains_node(file_node_id.as_str()) {
                            let rel_id = concat4("imports:", fp.as_str(), ":", node.id.as_str());
                            let rel = GraphRelationship::new(
                                rel_id.as_str(),
                                RelationshipKind::Imports,
                                file_node_id.as_str(),
                                node.id.as_str(),
                            );
                            assert(rel@.properties =~= seq![]);
                            let ghost before = new_rels@;
                            new_rels.push(rel);
                            assert(new_rels@.map_values(|r: GraphRelationship| r@) =~= before.map_values(
                                |r: GraphRelationship| r@,
                            ).push(rel@));
                        }
                    },
                    None => {},
                }
            }
            i = i + 1;
        }
        proof {
            assert(nodes0.take(n as int) =~= nodes0);
        }
        let ghost all = new_rels@.map_values(|r: GraphRelationship| r@);
        for rel in it: new_rels.into_iter()
            invariant
                it.seq().map_values(|r: GraphRelationship| r@) == all,
                graph.gview() == with_rels(g0, all.take(it.index() as int)),
        {
            proof {
                assert(all.take(it.index() + 1).drop_last() =~= all.take(it.index() as int));
                assert(rel@ == all[it.index() as int]);
            }
            graph.add_relationship(rel);
        }
        proof {
            assert(all.take(all.len() as int) =~= all);
        }
        progress.push(progress_report(
            PipelinePhase::CrossFile,
            80,
            "Cross-file references resolved",
            None,
            Some(stats_of(parse.total_files, parse.total_files, graph.node_count(), graph.relationship_count())),
        ));
    }
}

/// Whether some relationship of `g` has the id `id`.
pub open spec fn rel_id_present(g: GraphView, id: Seq<char>) -> bool {
    exists|i: int| 0 <= i < g.rels.len() && #[trigger] g.rels[i].id == id
}

/// Adding relationship values keeps the nodes and the relationships already
/// there; every relationship that comes in is one of those added, and the id
/// of each one added is then present.
pub proof fn lemma_with_rels(g: GraphView, rs: Seq<RelView>)
    ensures
        with_rels(g, rs).nodes == g.nodes,
        g.rels.len() <= with_rels(g, rs).rels.len(),
        forall|i: int| 0 <= i < g.rels.len() ==> #[trigger] with_rels(g, rs).rels[i] == g.rels[i],
        forall|i: int| g.rels.len() <= i < with_rels(g, rs).rels.len()
            ==> exists|k: int| 0 <= k < rs.len() && #[trigger] with_rels(g, rs).rels[i] == rs[k],
        forall|k: int| 0 <= k < rs.len() ==> rel_id_present(with_rels(g, rs), #[trigger] rs[k].id),
    decreases rs.len(),
{
    if rs.len() > 0 {
        let front = rs.drop_last();
        lemma_with_rels(g, front);
        let h0 = with_rels(g, front);
        let h = with_rels(g, rs);
        assert(h == view_add_rel(h0, rs.last()));
        if exists|i: int| 0 <= i < h0.rels.len() && #[trigger] h0.rels[i].id == rs.last().id {
            assert(h == h0);
        } else {
            assert(h.rels == h0.rels.push(rs.last()));
            assert(h.rels[h0.rels.len() as int].id == rs.last().id);
        }
        assert forall|i: int| 0 <= i < g.rels.len() implies #[trigger] h.rels[i] == g.rels[i] by {
            assert(h0.rels[i] == g.rels[i]);
        }
        assert forall|i: int| g.rels.len() <= i < h.rels.len()
            implies exists|k: int| 0 <= k < rs.len() && #[trigger] h.rels[i] == rs[k] by {
            if i < h0.rels.len() {
                assert(h.rels[i] == h0.rels[i]);
                let k = choose|k: int| 0 <= k < front.len() && #[trigger] h0.rels[i] == front[k];
                assert(rs[k] == front[k]);
            } else {
                assert(h.rels[i] == rs[rs.len() - 1]);
            }
        }
        assert forall|k: int| 0 <= k < rs.len() implies rel_id_present(h, #[trigger] rs[k].id) by {
            if k < front.len() {
                assert(rs[k] == front[k]);
                assert(rel_id_present(h0, front[k].id));
                let i = choose|i: int| 0 <= i < h0.rels.len() && #[trigger] h0.rels[i].id == front[k].id;
                assert(h.rels[i] == h0.rels[i]);
            } else {
                assert(rs[k] == rs.last());
            }
        }
    }
}

/// The links of `import_links` are exactly the links of the nodes that have
/// one.
proof fn lemma_import_links(nodes: Seq<GraphNode>, s: Seq<GraphNode>)
    ensures
        forall|k: int| 0 <= k < import_links(nodes, s).len()
            ==> exists|i: int| 0 <= i < s.len() && import_link(nodes, #[trigger] s[i]) == Some(#[trigger] import_links(nodes, s)[k]),
        forall|i: int| 0 <= i < s.len() && (#[trigger] import_link(nodes, s[i])) is Some
            ==> exists|k: int| 0 <= k < import_links(nodes, s).len() && Some(import_links(nodes, s)[k]) == import_link(nodes, s[i]),
    decreases s.len(),
{
    if s.len() > 0 {
        let front = s.drop_last();
        lemma_import_links(nodes, front);
        let before = import_links(nodes, front);
        let all = import_links(nodes, s);
        assert forall|k: int| 0 <= k < all.len()
            implies exists|i: int| 0 <= i < s.len() && import_link(nodes, #[trigger] s[i]) == Some(#[trigger] all[k]) by {
            if k < before.len() {
                assert(all[k] == before[k]);
                let i = choose|i: int| 0 <= i < front.len() && import_link(nodes, #[trigger] front[i]) == Some(before[k]);
                assert(s[i] == front[i]);
            } else {
                assert(import_link(nodes, s[s.len() - 1]) == Some(all[k]));
            }
        }
        assert forall|i: int| 0 <= i < s.len() && (#[trigger] import_link(nodes, s[i])) is Some
            implies exists|k: int| 0 <= k < all.len() && Some(all[k]) == import_link(nodes, s[i]) by {
            if i < front.len() {
                assert(s[i] == front[i]);
                assert(import_link(nodes, front[i]) is Some);
                let k = choose|k: int| 0 <= k < before.len() && Some(before[k]) == import_link(nodes, front[i]);
                assert(all[k] == before[k]);
            } else {
                assert(s[i] == s.last());
                assert(all[before.len() as int] == import_link(nodes, s.last())->0);
            }
        }
    }
}

/// Whether an import node records a file whose File node is among `nodes`.
pub open spec fn resolvable_import(nodes: Seq<GraphNode>, n: GraphNode) -> bool {
    &&& n.kind == NodeKind::Import
    &&& node_file_path(n) is Some
    &&& has_node_id(nodes, "file:"@ + node_file_path(n)->0)
}

/// Whether `r` is the IMPORTS relationship of a resolvable import among
/// `nodes`: from the File node of the file it records to the import.
pub open spec fn links_resolvable_import(nodes: Seq<GraphNode>, r: RelView) -> bool {
    exists|j: int| {
        &&& 0 <= j < nodes.len()
        &&& #[trigger] resolvable_import(nodes, nodes[j])
        &&& r.id == "imports:"@ + node_file_path(nodes[j])->0 + ":"@ + nodes[j].id@
        &&& r.kind == RelationshipKind::Imports
        &&& r.source_id == "file:"@ + node_file_path(nodes[j])->0
        &&& r.target_id == nodes[j].id@
    }
}

/// Law: the cross-file step links every resolvable import and nothing else.
/// Each Import node that records a file whose File node is in the graph
/// gets an IMPORTS relationship `imports:{file}:{import}` (one per such
/// node), and every relationship the step adds goes from the File node of a
/// resolvable import's file to that import; nodes and the relationships
/// already there are kept.
pub proof fn law_imports_linked(g: GraphView, nodes: Seq<GraphNode>, h: GraphView)
    requires
        h == with_rels(g, import_links(nodes, nodes)),
    ensures
        h.nodes == g.nodes,
        g.rels.len() <= h.rels.len(),
        forall|i: int| 0 <= i < g.rels.len() ==> #[trigger] h.rels[i] == g.rels[i],
        forall|i: int| 0 <= i < nodes.len() && #[trigger] resolvable_import(nodes, nodes[i])
            ==> rel_id_present(h, "imports:"@ + node_file_path(nodes[i])->0 + ":"@ + nodes[i].id@),
        forall|i: int| g.rels.len() <= i < h.rels.len() ==> #[trigger] links_resolvable_import(nodes, h.rels[i]),
{
    let links = import_links(nodes, nodes);
    lemma_with_rels(g, links);
    lemma_import_links(nodes, nodes);
    assert forall|i: int| 0 <= i < nodes.len() && #[trigger] resolvable_import(nodes, nodes[i])
        implies rel_id_present(h, "imports:"@ + node_file_path(nodes[i])->0 + ":"@ + nodes[i].id@) by {
        assert(import_link(nodes, nodes[i]) is Some);
        let k = choose|k: int| 0 <= k < links.len() && Some(links[k]) == import_link(nodes, nodes[i]);
        assert(rel_id_present(h, links[k].id));
    }
    assert forall|i: int| g.rels.len() <= i < h.rels.len() implies #[trigger] links_resolvable_import(nodes, h.rels[i]) by {
        let k = choose|k: int| 0 <= k < links.len() && #[trigger] h.rels[i] == links[k];
        let j = choose|j: int| 0 <= j < nodes.len() && import_link(nodes, #[trigger] nodes[j]) == Some(links[k]);
        assert(resolvable_import(nodes, nodes[j]));
    }
}

} // verus!
