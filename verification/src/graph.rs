//! The in-memory knowledge graph: nodes and directed relationships, each
//! identified by a string id that occurs at most once.

use vstd::prelude::*;
use crate::text::same_text;
use crate::types::{GraphNode, GraphRelationship, NodeKind, NodeView, RelView, RelationshipKind, node_file_path};

verus! {

/// No two nodes of `s` share an id.
pub open spec fn distinct_node_ids(s: Seq<GraphNode>) -> bool {
    forall|i: int, j: int| 0 <= i < s.len() && 0 <= j < s.len() && i != j ==> s[i].id@ != s[j].id@
}

/// No two relationships of `s` share an id.
pub open spec fn distinct_rel_ids(s: Seq<GraphRelationship>) -> bool {
    forall|i: int, j: int| 0 <= i < s.len() && 0 <= j < s.len() && i != j ==> s[i].id@ != s[j].id@
}

/// Whether some node in `s` has the id `id`.
pub open spec fn has_node_id(s: Seq<GraphNode>, id: Seq<char>) -> bool {
    exists|i: int| 0 <= i < s.len() && #[trigger] s[i].id@ == id
}

/// Whether some relationship in `s` has the id `id`.
pub open spec fn has_rel_id(s: Seq<GraphRelationship>, id: Seq<char>) -> bool {
    exists|i: int| 0 <= i < s.len() && #[trigger] s[i].id@ == id
}

/// The node list after adding `n`: a node whose id is taken is ignored.
pub open spec fn node_added(s: Seq<GraphNode>, n: GraphNode) -> Seq<GraphNode> {
    if has_node_id(s, n.id@) { s } else { s.push(n) }
}

/// The relationship list after adding `r`: one whose id is taken is ignored.
pub open spec fn rel_added(s: Seq<GraphRelationship>, r: GraphRelationship) -> Seq<GraphRelationship> {
    if has_rel_id(s, r.id@) { s } else { s.push(r) }
}

/// Whether a relationship starts or ends at `id`.
pub open spec fn touches(r: GraphRelationship, id: Seq<char>) -> bool {
    r.source_id@ == id || r.target_id@ == id
}

/// The nodes of `s` other than the one with id `id`.
pub open spec fn nodes_without(s: Seq<GraphNode>, id: Seq<char>) -> Seq<GraphNode> {
    s.filter(|n: GraphNode| n.id@ != id)
}

/// The relationships of `s` that neither start nor end at `id`.
pub open spec fn rels_without(s: Seq<GraphRelationship>, id: Seq<char>) -> Seq<GraphRelationship> {
    s.filter(|x: GraphRelationship| !touches(x, id))
}

/// The nodes of `s` that do not record `fp` as their file.
pub open spec fn nodes_outside(s: Seq<GraphNode>, fp: Seq<char>) -> Seq<GraphNode> {
    s.filter(|n: GraphNode| !in_file(n, fp))
}

/// The relationships of `s` that touch none of `ids`.
pub open spec fn rels_clear_of(s: Seq<GraphRelationship>, ids: Seq<Seq<char>>) -> Seq<GraphRelationship> {
    s.filter(|x: GraphRelationship| !touches_any(x, ids))
}

/// Whether a node records `fp` as its file.
pub open spec fn in_file(n: GraphNode, fp: Seq<char>) -> bool {
    node_file_path(n) == Some(fp)
}

/// The ids of the nodes of `s` that record `fp` as their file, in order.
pub open spec fn file_node_ids(s: Seq<GraphNode>, fp: Seq<char>) -> Seq<Seq<char>> {
    s.filter(|n: GraphNode| in_file(n, fp)).map_values(|n: GraphNode| n.id@)
}

/// Whether a relationship starts or ends at one of `ids`.
pub open spec fn touches_any(r: GraphRelationship, ids: Seq<Seq<char>>) -> bool {
    exists|k: int| 0 <= k < ids.len() && touches(r, #[trigger] ids[k])
}

/// Whether `n` records `fp` as its file.
pub fn node_in_file(n: &GraphNode, fp: &str) -> (r: bool)
    ensures
        r == in_file(*n, fp@),
{
    match n.file_path() {
        Some(v) => same_text(v.as_str(), fp),
        None => false,
    }
}

fn touches_any_of(x: &GraphRelationship, ids: &Vec<String>) -> (r: bool)
    ensures
        r == exists|k: int| 0 <= k < ids@.len() && touches(*x, #[trigger] ids@[k]@),
{
    let mut k: usize = 0;
    while k < ids.len()
        invariant
            0 <= k <= ids@.len(),
            forall|j: int| 0 <= j < k ==> !touches(*x, #[trigger] ids@[j]@),
        decreases ids@.len() - k,
    {
        if x.source_id == ids[k] || x.target_id == ids[k] {
            assert(touches(*x, ids@[k as int]@));
            return true;
        }
        k = k + 1;
    }
    false
}

/// The plain value of a graph: its node and relationship values in order.
pub struct GraphView {
    pub nodes: Seq<NodeView>,
    pub rels: Seq<RelView>,
}

/// The graph after adding a node value: one whose id is taken is ignored.
pub open spec fn view_add_node(g: GraphView, n: NodeView) -> GraphView {
    if exists|i: int| 0 <= i < g.nodes.len() && #[trigger] g.nodes[i].id == n.id {
        g
    } else {
        GraphView { nodes: g.nodes.push(n), rels: g.rels }
    }
}

/// The graph after adding a relationship value: one whose id is taken is
/// ignored.
pub open spec fn view_add_rel(g: GraphView, r: RelView) -> GraphView {
    if exists|i: int| 0 <= i < g.rels.len() && #[trigger] g.rels[i].id == r.id {
        g
    } else {
        GraphView { nodes: g.nodes, rels: g.rels.push(r) }
    }
}

/// A sequence of references that points, element by element, at `s`.
pub open spec fn refs_to<T>(r: Seq<&T>, s: Seq<T>) -> bool {
    r.len() == s.len() && forall|i: int| 0 <= i < s.len() ==> *r[i] == s[i]
}

/// One step of a left-to-right filter.
pub proof fn lemma_filter_step<A>(s: Seq<A>, p: spec_fn(A) -> bool, i: int)
    requires
        0 <= i < s.len(),
    ensures
        s.take(i + 1).filter(p) == if p(s[i]) { s.take(i).filter(p).push(s[i]) } else { s.take(i).filter(p) },
{
    reveal(Seq::filter);
    assert(s.take(i + 1).drop_last() =~= s.take(i));
}

/// Taking all of a sequence gives it back, and nothing of it filters to nothing.
pub proof fn lemma_filter_all<A>(s: Seq<A>, p: spec_fn(A) -> bool)
    ensures
        s.take(s.len() as int) == s,
        s.take(0).filter(p) == Seq::<A>::empty(),
{
    reveal(Seq::filter);
    assert(s.take(s.len() as int) =~= s);
    assert(s.take(0) =~= Seq::<A>::empty());
}

/// Filtering keeps node ids distinct.
pub proof fn lemma_filter_distinct_nodes(s: Seq<GraphNode>, p: spec_fn(GraphNode) -> bool)
    requires
        distinct_node_ids(s),
    ensures
        distinct_node_ids(s.filter(p)),
        forall|k: int| 0 <= k < s.filter(p).len() ==> s.contains(#[trigger] s.filter(p)[k]),
    decreases s.len(),
{
    reveal(Seq::filter);
    if s.len() > 0 {
        let t = s.drop_last();
        lemma_filter_distinct_nodes(t, p);
        let f = s.filter(p);
        assert forall|k: int| 0 <= k < f.len() implies s.contains(#[trigger] f[k]) by {
            if k < t.filter(p).len() {
                assert(t.contains(t.filter(p)[k]));
                let m = choose|m: int| 0 <= m < t.len() && t[m] == t.filter(p)[k];
                assert(s[m] == f[k]);
            } else {
                assert(f[k] == s.last());
                assert(s[s.len() - 1] == f[k]);
            }
        }
        if p(s.last()) {
            assert forall|i: int, j: int| 0 <= i < f.len() && 0 <= j < f.len() && i != j implies f[i].id@ != f[j].id@ by {
                if i < f.len() - 1 && j < f.len() - 1 {
                    assert(f[i] == t.filter(p)[i] && f[j] == t.filter(p)[j]);
                } else if i < f.len() - 1 {
                    assert(t.contains(t.filter(p)[i]));
                    let m = choose|m: int| 0 <= m < t.len() && t[m] == t.filter(p)[i];
                    assert(s[m] == f[i] && s[s.len() - 1] == f[j]);
                } else if j < f.len() - 1 {
                    assert(t.contains(t.filter(p)[j]));
                    let m = choose|m: int| 0 <= m < t.len() && t[m] == t.filter(p)[j];
                    assert(s[m] == f[j] && s[s.len() - 1] == f[i]);
                }
            }
        }
    }
}

/// Filtering keeps relationship ids distinct.
pub proof fn lemma_filter_distinct_rels(s: Seq<GraphRelationship>, p: spec_fn(GraphRelationship) -> bool)
    requires
        distinct_rel_ids(s),
    ensures
        distinct_rel_ids(s.filter(p)),
        forall|k: int| 0 <= k < s.filter(p).len() ==> s.contains(#[trigger] s.filter(p)[k]),
    decreases s.len(),
{
    reveal(Seq::filter);
    if s.len() > 0 {
        let t = s.drop_last();
        lemma_filter_distinct_rels(t, p);
        let f = s.filter(p);
        assert forall|k: int| 0 <= k < f.len() implies s.contains(#[trigger] f[k]) by {
            if k < t.filter(p).len() {
                assert(t.contains(t.filter(p)[k]));
                let m = choose|m: int| 0 <= m < t.len() && t[m] == t.filter(p)[k];
                assert(s[m] == f[k]);
            } else {
                assert(f[k] == s.last());
                assert(s[s.len() - 1] == f[k]);
            }
        }
        if p(s.last()) {
            assert forall|i: int, j: int| 0 <= i < f.len() && 0 <= j < f.len() && i != j implies f[i].id@ != f[j].id@ by {
                if i < f.len() - 1 && j < f.len() - 1 {
                    assert(f[i] == t.filter(p)[i] && f[j] == t.filter(p)[j]);
                } else if i < f.len() - 1 {
                    assert(t.contains(t.filter(p)[i]));
                    let m = choose|m: int| 0 <= m < t.len() && t[m] == t.filter(p)[i];
                    assert(s[m] == f[i] && s[s.len() - 1] == f[j]);
                } else if j < f.len() - 1 {
                    assert(t.contains(t.filter(p)[j]));
                    let m = choose|m: int| 0 <= m < t.len() && t[m] == t.filter(p)[j];
                    assert(s[m] == f[j] && s[s.len() - 1] == f[i]);
                }
            }
        }
    }
}

/// Adding a node, seen on plain values.
pub proof fn lemma_view_add_node(s: Seq<GraphNode>, rels: Seq<GraphRelationship>, n: GraphNode)
    ensures
        view_add_node(
            GraphView { nodes: s.map_values(|x: GraphNode| x@), rels: rels.map_values(|r: GraphRelationship| r@) },
            n@,
        ) == (GraphView {
            nodes: node_added(s, n).map_values(|x: GraphNode| x@),
            rels: rels.map_values(|r: GraphRelationship| r@),
        }),
{
    let v = s.map_values(|x: GraphNode| x@);
    if has_node_id(s, n.id@) {
        let i = choose|i: int| 0 <= i < s.len() && #[trigger] s[i].id@ == n.id@;
        assert(v[i].id == n@.id);
    } else {
        assert forall|i: int| 0 <= i < v.len() implies #[trigger] v[i].id != n@.id by {
            assert(s[i].id@ == v[i].id);
        }
        assert(s.push(n).map_values(|x: GraphNode| x@) =~= v.push(n@));
    }
}

/// Adding a relationship, seen on plain values.
pub proof fn lemma_view_add_rel(s: Seq<GraphNode>, rels: Seq<GraphRelationship>, r: GraphRelationship)
    ensures
        view_add_rel(
            GraphView { nodes: s.map_values(|x: GraphNode| x@), rels: rels.map_values(|r: GraphRelationship| r@) },
            r@,
        ) == (GraphView {
            nodes: s.map_values(|x: GraphNode| x@),
            rels: rel_added(rels, r).map_values(|r: GraphRelationship| r@),
        }),
{
    let v = rels.map_values(|x: GraphRelationship| x@);
    if has_rel_id(rels, r.id@) {
        let i = choose|i: int| 0 <= i < rels.len() && #[trigger] rels[i].id@ == r.id@;
        assert(v[i].id == r@.id);
    } else {
        assert forall|i: int| 0 <= i < v.len() implies #[trigger] v[i].id != r@.id by {
            assert(rels[i].id@ == v[i].id);
        }
        assert(rels.push(r).map_values(|x: GraphRelationship| x@) =~= v.push(r@));
    }
}

/// The knowledge graph. Nodes and relationships keep the order in which they
/// were first added; no two nodes, and no two relationships, share an id.
#[derive(Debug)]
pub struct KnowledgeGraph {
    nodes: Vec<GraphNode>,
    relationships: Vec<GraphRelationship>,
}

impl KnowledgeGraph {
    /// The nodes, in insertion order.
    pub closed spec fn node_list(&self) -> Seq<GraphNode> {
        self.nodes@
    }

    /// The relationships, in insertion order.
    pub closed spec fn rel_list(&self) -> Seq<GraphRelationship> {
        self.relationships@
    }

    /// The plain value of the graph.
    pub open spec fn gview(&self) -> GraphView {
        GraphView {
            nodes: self.node_list().map_values(|n: GraphNode| n@),
            rels: self.rel_list().map_values(|r: GraphRelationship| r@),
        }
    }

    /// Ids are unique among nodes and among relationships.
    #[verifier::type_invariant]
    pub open spec fn wf(&self) -> bool {
        distinct_node_ids(self.node_list()) && distinct_rel_ids(self.rel_list())
    }

    /// An empty graph.
    pub fn new() -> (g: KnowledgeGraph)
        ensures
            g.node_list() == Seq::<GraphNode>::empty(),
            g.rel_list() == Seq::<GraphRelationship>::empty(),
    {
        KnowledgeGraph { nodes: Vec::new(), relationships: Vec::new() }
    }

    fn node_position(&self, id: &String) -> (r: Option<usize>)
        ensures
            match r {
                Some(i) => i < self.nodes@.len() && self.nodes@[i as int].id@ == id@,
                None => !has_node_id(self.nodes@, id@),
            },
    {
        let mut i: usize = 0;
        while i < self.nodes.len()
            invariant
                0 <= i <= self.nodes@.len(),
                forall|k: int| 0 <= k < i ==> self.nodes@[k].id@ != id@,
            decreases self.nodes@.len() - i,
        {
            if self.nodes[i].id == *id {
                return Some(i);
            }
            i = i + 1;
        }
        None
    }

    fn rel_position(&self, id: &String) -> (r: Option<usize>)
        ensures
            match r {
                Some(i) => i < self.relationships@.len() && self.relationships@[i as int].id@ == id@,
                None => !has_rel_id(self.relationships@, id@),
            },
    {
        let mut i: usize = 0;
        while i < self.relationships.len()
            invariant
                0 <= i <= self.relationships@.len(),
                forall|k: int| 0 <= k < i ==> self.relationships@[k].id@ != id@,
            decreases self.relationships@.len() - i,
        {
            if self.relationships[i].id == *id {
                return Some(i);
            }
            i = i + 1;
        }
        None
    }

    /// Adds a node unless a node with its id is already present.
    pub fn add_node(&mut self, node: GraphNode)
        ensures
            final(self).node_list() == node_added(old(self).node_list(), node),
            final(self).rel_list() == old(self).rel_list(),
            final(self).gview() == view_add_node(old(self).gview(), node@),
    {
        proof {
            use_type_invariant(&*self);
            lemma_view_add_node(self.nodes@, self.relationships@, node);
        }
        match self.node_position(&node.id) {
            Some(_) => {},
            None => {
                let mut nodes: Vec<GraphNode> = Vec::new();
                std::mem::swap(&mut nodes, &mut self.nodes);
                nodes.push(node);
                self.nodes = nodes;
            },
        }
    }

    /// Adds a relationship unless one with its id is already present.
    pub fn add_relationship(&mut self, rel: GraphRelationship)
        ensures
            final(self).rel_list() == rel_added(old(self).rel_list(), rel),
            final(self).node_list() == old(self).node_list(),
            final(self).gview() == view_add_rel(old(self).gview(), rel@),
    {
        proof {
            use_type_invariant(&*self);
            lemma_view_add_rel(self.nodes@, self.relationships@, rel);
        }
        match self.rel_position(&rel.id) {
            Some(_) => {},
            None => {
                let mut rels: Vec<GraphRelationship> = Vec::new();
                std::mem::swap(&mut rels, &mut self.relationships);
                rels.push(rel);
                self.relationships = rels;
            },
        }
    }

    /// Whether a node with this id is present.
    pub fn contains_node(&self, id: &str) -> (r: bool)
        ensures
            r == has_node_id(self.node_list(), id@),
    {
        let key = id.to_owned();
        self.node_position(&key).is_some()
    }

    /// Removes the node with this id and every relationship that starts or
    /// ends at it. Returns whether such a node was present; when none was,
    /// nothing changes.
    pub fn remove_node(&mut self, node_id: &str) -> (r: bool)
        ensures
            r == has_node_id(old(self).node_list(), node_id@),
            r ==> final(self).node_list() == nodes_without(old(self).node_list(), node_id@),
            r ==> final(self).rel_list() == rels_without(old(self).rel_list(), node_id@),
            !r ==> final(self).node_list() == old(self).node_list(),
            !r ==> final(self).rel_list() == old(self).rel_list(),
    {
        proof { use_type_invariant(&*self); }
        let key = node_id.to_owned();
        let pos = self.node_position(&key);
        if pos.is_none() {
            return false;
        }
        let ghost pn = |n: GraphNode| n.id@ != node_id@;
        let ghost pr = |x: GraphRelationship| !touches(x, node_id@);
        let mut old_nodes: Vec<GraphNode> = Vec::new();
        std::mem::swap(&mut old_nodes, &mut self.nodes);
        let ghost on = old_nodes@;
        let mut kept: Vec<GraphNode> = Vec::new();
        proof { lemma_filter_all(on, pn); }
        for n in it: old_nodes.into_iter()
            invariant
                it.seq() == on,
                distinct_node_ids(on),
                kept@ == on.take(it.index() as int).filter(pn),
                self.relationships@ == old(self).relationships@,
                distinct_rel_ids(self.relationships@),
                key@ == node_id@,
                pn == |n: GraphNode| n.id@ != node_id@,
        {
            proof {
                assert(n == on[it.index() as int]);
                lemma_filter_step(on, pn, it.index() as int);
            }
            if !(n.id == key) {
                kept.push(n);
            }
        }
        proof { lemma_filter_distinct_nodes(on, pn); }
        self.nodes = kept;
        let mut old_rels: Vec<GraphRelationship> = Vec::new();
        std::mem::swap(&mut old_rels, &mut self.relationships);
        let ghost orr = old_rels@;
        let mut kept_rels: Vec<GraphRelationship> = Vec::new();
        proof { lemma_filter_all(orr, pr); }
        for x in it: old_rels.into_iter()
            invariant
                it.seq() == orr,
                distinct_rel_ids(orr),
                kept_rels@ == orr.take(it.index() as int).filter(pr),
                self.nodes@ == on.filter(pn),
                distinct_node_ids(self.nodes@),
                key@ == node_id@,
                pr == |x: GraphRelationship| !touches(x, node_id@),
        {
            proof {
                assert(x == orr[it.index() as int]);
                lemma_filter_step(orr, pr, it.index() as int);
            }
            if !(x.source_id == key) && !(x.target_id == key) {
                kept_rels.push(x);
            }
        }
        proof { lemma_filter_distinct_rels(orr, pr); }
        self.relationships = kept_rels;
        true
    }

    /// Removes every node that records `file_path` as its file, and every
    /// relationship that starts or ends at one of them. Returns how many
    /// nodes were removed.
    pub fn remove_nodes_by_file(&mut self, file_path: &str) -> (r: usize)
        ensures
            r == file_node_ids(old(self).node_list(), file_path@).len(),
            final(self).node_list() == nodes_outside(old(self).node_list(), file_path@),
            final(self).rel_list() == rels_clear_of(old(self).rel_list(), file_node_ids(old(self).node_list(), file_path@)),
    {
        proof { use_type_invariant(&*self); }
        let ghost pm = |n: GraphNode| in_file(n, file_path@);
        let ghost pn = |n: GraphNode| !in_file(n, file_path@);
        let mut old_nodes: Vec<GraphNode> = Vec::new();
        std::mem::swap(&mut old_nodes, &mut self.nodes);
        let ghost on = old_nodes@;
        let mut ids: Vec<String> = Vec::new();
        let mut kept: Vec<GraphNode> = Vec::new();
        proof {
            lemma_filter_all(on, pn);
            lemma_filter_all(on, pm);
        }
        for n in it: old_nodes.into_iter()
            invariant
                it.seq() == on,
                distinct_node_ids(on),
                kept@ == on.take(it.index() as int).filter(pn),
                distinct_rel_ids(self.relationships@),
                ids@.len() == on.take(it.index() as int).filter(pm).len(),
                forall|k: int| 0 <= k < ids@.len() ==> #[trigger] ids@[k]@ == on.take(it.index() as int).filter(pm)[k].id@,
                self.relationships@ == old(self).relationships@,
                pn == |n: GraphNode| !in_file(n, file_path@),
                pm == |n: GraphNode| in_file(n, file_path@),
        {
            proof {
                assert(n == on[it.index() as int]);
                lemma_filter_step(on, pn, it.index() as int);
                lemma_filter_step(on, pm, it.index() as int);
            }
            if node_in_file(&n, file_path) {
                ids.push(n.id.clone());
            } else {
                kept.push(n);
            }
        }
        proof {
            lemma_filter_distinct_nodes(on, pn);
        }
        self.nodes = kept;
        let ghost rid = file_node_ids(on, file_path@);
        assert(ids@.len() == rid.len());
        assert forall|k: int| 0 <= k < ids@.len() implies #[trigger] ids@[k]@ == rid[k] by {}
        let ghost pr = |x: GraphRelationship| !touches_any(x, rid);
        let mut old_rels: Vec<GraphRelationship> = Vec::new();
        std::mem::swap(&mut old_rels, &mut self.relationships);
        let ghost orr = old_rels@;
        let mut kept_rels: Vec<GraphRelationship> = Vec::new();
        proof { lemma_filter_all(orr, pr); }
        for x in it: old_rels.into_iter()
            invariant
                it.seq() == orr,
                distinct_rel_ids(orr),
                kept_rels@ == orr.take(it.index() as int).filter(pr),
                self.nodes@ == on.filter(pn),
                distinct_node_ids(self.nodes@),
                ids@.len() == rid.len(),
                forall|k: int| 0 <= k < ids@.len() ==> #[trigger] ids@[k]@ == rid[k],
                pr == |x: GraphRelationship| !touches_any(x, rid),
        {
            proof {
                assert(x == orr[it.index() as int]);
                lemma_filter_step(orr, pr, it.index() as int);
            }
            let hit = touches_any_of(&x, &ids);
            proof {
                if hit {
                    let k = choose|k: int| 0 <= k < ids@.len() && touches(x, #[trigger] ids@[k]@);
                    assert(touches(x, rid[k]));
                } else {
                    assert forall|k: int| 0 <= k < rid.len() implies !touches(x, #[trigger] rid[k]) by {
                        assert(ids@[k]@ == rid[k]);
                    }
                }
            }
            if !hit {
                kept_rels.push(x);
            }
        }
        proof { lemma_filter_distinct_rels(orr, pr); }
        self.relationships = kept_rels;
        ids.len()
    }

    /// The node with this id, if present.
    pub fn get_node(&self, id: &str) -> (r: Option<&GraphNode>)
        ensures
            match r {
                Some(n) => n.id@ == id@ && self.node_list().contains(*n),
                None => !has_node_id(self.node_list(), id@),
            },
    {
        let key = id.to_owned();
        match self.node_position(&key) {
            Some(i) => Some(&self.nodes[i]),
            None => None,
        }
    }

    /// Number of nodes.
    pub fn node_count(&self) -> (r: usize)
        ensures
            r == self.node_list().len(),
    {
        self.nodes.len()
    }

    /// Number of relationships.
    pub fn relationship_count(&self) -> (r: usize)
        ensures
            r == self.rel_list().len(),
    {
        self.relationships.len()
    }

    /// All nodes, in insertion order.
    pub fn nodes(&self) -> (r: &Vec<GraphNode>)
        ensures
            r@ == self.node_list(),
    {
        &self.nodes
    }

    /// All relationships, in insertion order.
    pub fn relationships(&self) -> (r: &Vec<GraphRelationship>)
        ensures
            r@ == self.rel_list(),
    {
        &self.relationships
    }

    /// The nodes of the given kind, in insertion order.
    pub fn nodes_of_kind(&self, kind: NodeKind) -> (r: Vec<&GraphNode>)
        ensures
            refs_to(r@, self.node_list().filter(|n: GraphNode| n.kind == kind)),
    {
        let ghost p = |n: GraphNode| n.kind == kind;
        let mut r: Vec<&GraphNode> = Vec::new();
        let mut i: usize = 0;
        proof { lemma_filter_all(self.nodes@, p); }
        while i < self.nodes.len()
            invariant
                0 <= i <= self.nodes@.len(),
                refs_to(r@, self.nodes@.take(i as int).filter(p)),
                p == |n: GraphNode| n.kind == kind,
            decreases self.nodes@.len() - i,
        {
            proof { lemma_filter_step(self.nodes@, p, i as int); }
            if self.nodes[i].kind == kind {
                r.push(&self.nodes[i]);
            }
            i = i + 1;
        }
        proof { lemma_filter_all(self.nodes@, p); }
        r
    }

    /// The relationships of the given kind that start at `source_id`, in
    /// insertion order.
    pub fn outgoing(&self, source_id: &str, kind: RelationshipKind) -> (r: Vec<&GraphRelationship>)
        ensures
            refs_to(
                r@,
                self.rel_list().filter(|x: GraphRelationship| x.source_id@ == source_id@ && x.kind == kind),
            ),
    {
        let ghost p = |x: GraphRelationship| x.source_id@ == source_id@ && x.kind == kind;
        let key = source_id.to_owned();
        let mut r: Vec<&GraphRelationship> = Vec::new();
        let mut i: usize = 0;
        proof { lemma_filter_all(self.relationships@, p); }
        while i < self.relationships.len()
            invariant
                0 <= i <= self.relationships@.len(),
                refs_to(r@, self.relationships@.take(i as int).filter(p)),
                p == |x: GraphRelationship| x.source_id@ == source_id@ && x.kind == kind,
                key@ == source_id@,
            decreases self.relationships@.len() - i,
        {
            proof { lemma_filter_step(self.relationships@, p, i as int); }
            if self.relationships[i].source_id == key && self.relationships[i].kind == kind {
                r.push(&self.relationships[i]);
            }
            i = i + 1;
        }
        proof { lemma_filter_all(self.relationships@, p); }
        r
    }
}


/// Adding a node leaves a node with its id in the graph. If the id was free,
/// the added node is the one that carries it; if it was taken, the graph is
/// unchanged (the node added first stays). Ids stay unique.
#[verifier::spinoff_prover]
pub proof fn law_add_node(s: Seq<GraphNode>, n: GraphNode)
    requires
        distinct_node_ids(s),
    ensures
        has_node_id(node_added(s, n), n.id@),
        distinct_node_ids(node_added(s, n)),
        has_node_id(s, n.id@) ==> node_added(s, n) == s,
        !has_node_id(s, n.id@) ==> forall|i: int|
            0 <= i < node_added(s, n).len() && (#[trigger] node_added(s, n)[i]).id@ == n.id@ ==> node_added(s, n)[i] == n,
        forall|m: GraphNode| s.contains(m) ==> #[trigger] node_added(s, n).contains(m),
{
    if !has_node_id(s, n.id@) {
        let t = s.push(n);
        assert(t[s.len() as int] == n);
        assert forall|i: int, j: int| 0 <= i < t.len() && 0 <= j < t.len() && i != j implies t[i].id@ != t[j].id@ by {
            if i < s.len() && j < s.len() {
                assert(t[i] == s[i] && t[j] == s[j]);
            } else if i < s.len() {
                assert(t[i] == s[i]);
            } else if j < s.len() {
                assert(t[j] == s[j]);
            }
        }
        assert forall|m: GraphNode| s.contains(m) implies #[trigger] t.contains(m) by {
            let k = choose|k: int| 0 <= k < s.len() && s[k] == m;
            assert(t[k] == m);
        }
    }
}

/// Adding the same node twice is adding it once.
pub proof fn law_add_node_twice(s: Seq<GraphNode>, n: GraphNode)
    ensures
        node_added(node_added(s, n), n) == node_added(s, n),
{
    if !has_node_id(s, n.id@) {
        assert(s.push(n)[s.len() as int].id@ == n.id@);
    }
}

/// Adding a relationship leaves one with its id in the graph; if the id was
/// taken, nothing changes. Ids stay unique.
#[verifier::spinoff_prover]
pub proof fn law_add_relationship(s: Seq<GraphRelationship>, r: GraphRelationship)
    requires
        distinct_rel_ids(s),
    ensures
        has_rel_id(rel_added(s, r), r.id@),
        distinct_rel_ids(rel_added(s, r)),
        has_rel_id(s, r.id@) ==> rel_added(s, r) == s,
        !has_rel_id(s, r.id@) ==> rel_added(s, r) == s.push(r),
{
    if !has_rel_id(s, r.id@) {
        let t = s.push(r);
        assert(t[s.len() as int].id@ == r.id@);
        assert forall|i: int, j: int| 0 <= i < t.len() && 0 <= j < t.len() && i != j implies t[i].id@ != t[j].id@ by {
            if i < s.len() && j < s.len() {
                assert(t[i] == s[i] && t[j] == s[j]);
            } else if i < s.len() {
                assert(t[i] == s[i]);
            } else if j < s.len() {
                assert(t[j] == s[j]);
            }
        }
    }
}

/// After a node is removed, no node carries its id and no relationship starts
/// or ends at it; every other node stays.
pub proof fn law_remove_node(nodes: Seq<GraphNode>, rels: Seq<GraphRelationship>, id: Seq<char>)
    ensures
        !has_node_id(nodes_without(nodes, id), id),
        forall|k: int| 0 <= k < rels_without(rels, id).len() ==> !touches(#[trigger] rels_without(rels, id)[k], id),
        forall|m: GraphNode| nodes.contains(m) && m.id@ != id ==> #[trigger] nodes_without(nodes, id).contains(m),
{
    let p = |n: GraphNode| n.id@ != id;
    let q = |x: GraphRelationship| !touches(x, id);
    nodes.filter_lemma(p);
    rels.filter_lemma(q);
    assert forall|m: GraphNode| nodes.contains(m) && m.id@ != id implies #[trigger] nodes_without(nodes, id).contains(m) by {
        let k = choose|k: int| 0 <= k < nodes.len() && nodes[k] == m;
        assert(p(nodes[k]));
    }
    if has_node_id(nodes.filter(p), id) {
        let i = choose|i: int| 0 <= i < nodes.filter(p).len() && #[trigger] nodes.filter(p)[i].id@ == id;
        assert(p(nodes.filter(p)[i]));
    }
}

/// The nodes a filter keeps and those it drops add up to all of them.
pub proof fn lemma_filter_split<A>(s: Seq<A>, p: spec_fn(A) -> bool)
    ensures
        s.filter(p).len() + s.filter(|a: A| !p(a)).len() == s.len(),
    decreases s.len(),
{
    reveal(Seq::filter);
    if s.len() > 0 {
        lemma_filter_split(s.drop_last(), p);
    }
}

/// Removing the nodes of a file leaves none of them, no relationship that
/// starts or ends at one of them, and every node of another file; the count
/// it reports is the number of nodes that left the graph.
pub proof fn law_remove_nodes_by_file(nodes: Seq<GraphNode>, rels: Seq<GraphRelationship>, fp: Seq<char>)
    ensures
        forall|k: int| 0 <= k < nodes_outside(nodes, fp).len() ==> !in_file(#[trigger] nodes_outside(nodes, fp)[k], fp),
        forall|k: int| 0 <= k < rels_clear_of(rels, file_node_ids(nodes, fp)).len()
            ==> !touches_any(#[trigger] rels_clear_of(rels, file_node_ids(nodes, fp))[k], file_node_ids(nodes, fp)),
        forall|m: GraphNode| nodes.contains(m) && !in_file(m, fp) ==> #[trigger] nodes_outside(nodes, fp).contains(m),
        file_node_ids(nodes, fp).len() + nodes_outside(nodes, fp).len() == nodes.len(),
{
    let pm = |n: GraphNode| in_file(n, fp);
    let pn = |n: GraphNode| !in_file(n, fp);
    let ids = file_node_ids(nodes, fp);
    let q = |x: GraphRelationship| !touches_any(x, ids);
    nodes.filter_lemma(pn);
    rels.filter_lemma(q);
    lemma_filter_split(nodes, pm);
    assert((|a: GraphNode| !pm(a)) =~= pn);
    assert forall|m: GraphNode| nodes.contains(m) && !in_file(m, fp) implies #[trigger] nodes_outside(nodes, fp).contains(m) by {
        let k = choose|k: int| 0 <= k < nodes.len() && nodes[k] == m;
        assert(pn(nodes[k]));
    }
}

} // verus!
