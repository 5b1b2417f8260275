//! The communities phase: the connected components of the graph, taking
//! relationships as undirected links, each of two or more members becoming
//! a Community node that its members are PART_OF.

use vstd::prelude::*;
use crate::cross_file::{lemma_with_rels, rel_id_present, with_rels};
use crate::graph::{GraphView, KnowledgeGraph, view_add_node, view_add_rel};
use crate::text::{concat2, concat4};
use crate::time::{decimal, push_padded, zero_padded};
use crate::types::{
    GraphNode, GraphRelationship, NodeKind, NodeView, PipelinePhase, PipelineProgress, PipelineStats, RelView,
    RelationshipKind, is_report, progress_report, stats_of,
};
use uuid::Uuid;

verus! {

/// The texts of a list of strings.
pub open spec fn texts(s: Seq<String>) -> Seq<Seq<char>> {
    s.map_values(|x: String| x@)
}

/// No text occurs twice in `v`.
pub open spec fn distinct_seq(v: Seq<Seq<char>>) -> bool {
    forall|i: int, j: int| 0 <= i < v.len() && 0 <= j < v.len() && i != j ==> v[i] != v[j]
}

/// The vertex table: node ids in node order, then the relationship
/// endpoints that are no node id, in order of first appearance; and for
/// every relationship the positions of its source and target.
pub struct VertexTable {
    pub ids: Vec<String>,
    pub ends: Vec<(usize, usize)>,
}

/// `t` is the vertex table of the graph with these nodes and relationships.
pub open spec fn table_ok(t: VertexTable, nodes: Seq<GraphNode>, rels: Seq<GraphRelationship>) -> bool {
    let v = texts(t.ids@);
    &&& distinct_seq(v)
    &&& v.len() >= nodes.len()
    &&& forall|i: int| 0 <= i < nodes.len() ==> #[trigger] v[i] == nodes[i].id@
    &&& t.ends@.len() == rels.len()
    &&& forall|r: int| 0 <= r < rels.len() ==> {
        &&& (#[trigger] t.ends@[r]).0 < v.len()
        &&& t.ends@[r].1 < v.len()
        &&& v[t.ends@[r].0 as int] == rels[r].source_id@
        &&& v[t.ends@[r].1 as int] == rels[r].target_id@
    }
}

fn index_of(ids: &Vec<String>, x: &String) -> (r: Option<usize>)
    ensures
        match r {
            Some(i) => i < ids@.len() && ids@[i as int]@ == x@,
            None => forall|i: int| 0 <= i < ids@.len() ==> ids@[i]@ != x@,
        },
{
    let mut i: usize = 0;
    while i < ids.len()
        invariant
            0 <= i <= ids@.len(),
            forall|k: int| 0 <= k < i ==> ids@[k]@ != x@,
        decreases ids@.len() - i,
    {
        if ids[i] == *x {
            return Some(i);
        }
        i = i + 1;
    }
    None
}

/// The position of `x` in the vertex list, adding it at the end when absent.
fn intern(ids: &mut Vec<String>, x: &String) -> (r: usize)
    requires
        distinct_seq(texts(old(ids)@)),
    ensures
        distinct_seq(texts(final(ids)@)),
        r < final(ids)@.len(),
        final(ids)@[r as int]@ == x@,
        final(ids)@.len() >= old(ids)@.len(),
        forall|i: int| 0 <= i < old(ids)@.len() ==> #[trigger] final(ids)@[i] == old(ids)@[i],
{
    match index_of(ids, x) {
        Some(i) => i,
        None => {
            let ghost before = ids@;
            ids.push(x.clone());
            proof {
                let v = texts(ids@);
                assert forall|i: int, j: int| 0 <= i < v.len() && 0 <= j < v.len() && i != j implies v[i] != v[j] by {
                    if i < before.len() && j < before.len() {
                        assert(texts(before)[i] == v[i] && texts(before)[j] == v[j]);
                    }
                }
            }
            ids.len() - 1
        },
    }
}

/// Builds the vertex table of a graph.
pub fn vertex_table(graph: &KnowledgeGraph) -> (t: VertexTable)
    ensures
        table_ok(t, graph.node_list(), graph.rel_list()),
{
    let nodes = graph.nodes();
    let rels = graph.relationships();
    let mut ids: Vec<String> = Vec::new();
    let mut i: usize = 0;
    while i < nodes.len()
        invariant
            nodes@ == graph.node_list(),
            0 <= i <= nodes@.len(),
            ids@.len() == i,
            forall|k: int| 0 <= k < i ==> #[trigger] ids@[k]@ == nodes@[k].id@,
        decreases nodes@.len() - i,
    {
        ids.push(nodes[i].id.clone());
        i = i + 1;
    }
    proof {
        use_type_invariant(graph);
        let v = texts(ids@);
        assert forall|a: int, b: int| 0 <= a < v.len() && 0 <= b < v.len() && a != b implies v[a] != v[b] by {
            assert(v[a] == nodes@[a].id@ && v[b] == nodes@[b].id@);
        }
    }
    let mut ends: Vec<(usize, usize)> = Vec::new();
    let mut r: usize = 0;
    while r < rels.len()
        invariant
            rels@ == graph.rel_list(),
            nodes@ == graph.node_list(),
            0 <= r <= rels@.len(),
            distinct_seq(texts(ids@)),
            ids@.len() >= nodes@.len(),
            forall|k: int| 0 <= k < nodes@.len() ==> #[trigger] ids@[k]@ == nodes@[k].id@,
            ends@.len() == r,
            forall|q: int| 0 <= q < r ==> {
                &&& (#[trigger] ends@[q]).0 < ids@.len()
                &&& ends@[q].1 < ids@.len()
                &&& ids@[ends@[q].0 as int]@ == rels@[q].source_id@
                &&& ids@[ends@[q].1 as int]@ == rels@[q].target_id@
            },
        decreases rels@.len() - r,
    {
        let ghost before = ids@;
        let s = intern(&mut ids, &rels[r].source_id);
        let ghost mid = ids@;
        let t = intern(&mut ids, &rels[r].target_id);
        proof {
            assert(ids@[s as int] == mid[s as int]);
            assert forall|k: int| 0 <= k < nodes@.len() implies #[trigger] ids@[k]@ == nodes@[k].id@ by {
                assert(ids@[k] == mid[k] && mid[k] == before[k]);
            }
            assert forall|q: int| 0 <= q < r implies {
                &&& (#[trigger] ends@[q]).0 < ids@.len()
                &&& ends@[q].1 < ids@.len()
                &&& ids@[ends@[q].0 as int]@ == rels@[q].source_id@
                &&& ids@[ends@[q].1 as int]@ == rels@[q].target_id@
            } by {
                assert(ids@[ends@[q].0 as int] == mid[ends@[q].0 as int]);
                assert(mid[ends@[q].0 as int] == before[ends@[q].0 as int]);
                assert(ids@[ends@[q].1 as int] == mid[ends@[q].1 as int]);
                assert(mid[ends@[q].1 as int] == before[ends@[q].1 as int]);
            }
        }
        ends.push((s, t));
        r = r + 1;
    }
    let t = VertexTable { ids, ends };
    proof {
        let v = texts(t.ids@);
        assert forall|k: int| 0 <= k < graph.node_list().len() implies #[trigger] v[k] == graph.node_list()[k].id@ by {
            assert(t.ids@[k]@ == nodes@[k].id@);
        }
        assert forall|q: int| 0 <= q < graph.rel_list().len() implies {
            &&& (#[trigger] t.ends@[q]).0 < v.len()
            &&& t.ends@[q].1 < v.len()
            &&& v[t.ends@[q].0 as int] == graph.rel_list()[q].source_id@
            &&& v[t.ends@[q].1 as int] == graph.rel_list()[q].target_id@
        } by {
            assert(t.ids@[t.ends@[q].0 as int]@ == rels@[q].source_id@);
        }
    }
    t
}


/// `w` is listed among the neighbours of `u`.
pub open spec fn adj_edge(adj: Seq<Vec<usize>>, u: int, w: int) -> bool {
    0 <= u < adj.len() && 0 <= w < adj.len() && adj[u]@.contains(w as usize)
}

/// The neighbour lists are those of the undirected links `ends` between
/// `n` vertices.
pub open spec fn adjacency_ok(adj: Seq<Vec<usize>>, ends: Seq<(usize, usize)>, n: int) -> bool {
    &&& adj.len() == n
    &&& forall|u: int, j: int| 0 <= u < n && 0 <= j < adj[u]@.len() ==> (#[trigger] adj[u]@[j]) < n
    &&& forall|u: int, w: int| adj_edge(adj, u, w) ==> adj_edge(adj, w, u)
    &&& forall|u: int, w: int| #[trigger] adj_edge(adj, u, w) ==> exists|r: int|
        0 <= r < ends.len() && ((#[trigger] ends[r].0 == u && ends[r].1 == w) || (ends[r].0 == w && ends[r].1 == u))
    &&& forall|r: int| 0 <= r < ends.len() ==> adj_edge(adj, (#[trigger] ends[r]).0 as int, ends[r].1 as int)
}

/// The neighbour lists of `n` vertices joined by the undirected links `ends`.
pub(crate) fn adjacency(n: usize, ends: &Vec<(usize, usize)>) -> (adj: Vec<Vec<usize>>)
    requires
        forall|r: int| 0 <= r < ends@.len() ==> (#[trigger] ends@[r]).0 < n && ends@[r].1 < n,
    ensures
        adjacency_ok(adj@, ends@, n as int),
{
    let mut adj: Vec<Vec<usize>> = Vec::new();
    let mut i: usize = 0;
    while i < n
        invariant
            0 <= i <= n,
            adj@.len() == i,
            forall|u: int| 0 <= u < i ==> (#[trigger] adj@[u])@.len() == 0,
        decreases n - i,
    {
        adj.push(Vec::new());
        i = i + 1;
    }
    let mut r: usize = 0;
    while r < ends.len()
        invariant
            0 <= r <= ends@.len(),
            forall|q: int| 0 <= q < ends@.len() ==> (#[trigger] ends@[q]).0 < n && ends@[q].1 < n,
            adj@.len() == n,
            forall|u: int, j: int| 0 <= u < n && 0 <= j < adj@[u]@.len() ==> (#[trigger] adj@[u]@[j]) < n,
            forall|u: int, w: int| #[trigger] adj_edge(adj@, u, w) ==> exists|q: int|
                0 <= q < r && ((#[trigger] ends@[q].0 == u && ends@[q].1 == w) || (ends@[q].0 == w && ends@[q].1 == u)),
            forall|q: int| 0 <= q < r ==> adj_edge(adj@, (#[trigger] ends@[q]).0 as int, ends@[q].1 as int)
                && adj_edge(adj@, ends@[q].1 as int, ends@[q].0 as int),
        decreases ends@.len() - r,
    {
        let (a, b) = ends[r];
        let ghost before = adj@;
        let mut row = adj[a].clone();
        assert(row@ =~= before[a as int]@);
        row.push(b);
        adj.set(a, row);
        let ghost mid = adj@;
        let mut row2 = adj[b].clone();
        assert(row2@ =~= mid[b as int]@);
        row2.push(a);
        adj.set(b, row2);
        proof {
            assert forall|u: int, w: int| adj_edge(before, u, w) implies adj_edge(adj@, u, w) by {
                assert(before[u]@.contains(w as usize));
                let j = choose|j: int| 0 <= j < before[u]@.len() && before[u]@[j] == w as usize;
                if u == a as int {
                    assert(mid[u]@[j] == w as usize);
                } else {
                    assert(mid[u] == before[u]);
                }
                if u == b as int {
                    assert(adj@[u]@[j] == mid[u]@[j]);
                } else {
                    assert(adj@[u] == mid[u]);
                }
            }
            assert(mid[a as int]@.last() == b);
            assert(adj_edge(mid, a as int, b as int));
            assert(adj_edge(adj@, a as int, b as int)) by {
                let j = mid[a as int]@.len() - 1;
                if a == b {
                    assert(adj@[a as int]@[j] == mid[a as int]@[j]);
                } else {
                    assert(adj@[a as int] == mid[a as int]);
                }
            }
            assert(adj@[b as int]@.last() == a);
            assert(adj_edge(adj@, b as int, a as int));
            assert forall|u: int, j: int| 0 <= u < n && 0 <= j < adj@[u]@.len() implies (#[trigger] adj@[u]@[j]) < n by {
                if u == b as int {
                    if j < mid[u]@.len() {
                        assert(adj@[u]@[j] == mid[u]@[j]);
                    }
                } else {
                    assert(adj@[u] == mid[u]);
                }
                if u == a as int && u != b as int {
                    if j < before[u]@.len() {
                        assert(mid[u]@[j] == before[u]@[j]);
                    }
                } else if u != b as int {
                    assert(mid[u] == before[u]);
                }
            }
            assert forall|u: int, w: int| #[trigger] adj_edge(adj@, u, w) implies exists|q: int|
                0 <= q < r + 1 && ((#[trigger] ends@[q].0 == u && ends@[q].1 == w) || (ends@[q].0 == w && ends@[q].1 == u)) by {
                let j = choose|j: int| 0 <= j < adj@[u]@.len() && adj@[u]@[j] == w as usize;
                if (u == a as int && w == b as int) || (u == b as int && w == a as int) {
                    assert(ends@[r as int].0 == a && ends@[r as int].1 == b);
                } else {
                    if u == b as int {
                        if j < mid[u]@.len() {
                            assert(adj@[u]@[j] == mid[u]@[j]);
                        } else {
                            assert(adj@[u]@[j] == a);
                            assert(false);
                        }
                    } else {
                        assert(adj@[u] == mid[u]);
                    }
                    assert(mid[u]@.contains(w as usize));
                    let j2 = choose|j2: int| 0 <= j2 < mid[u]@.len() && mid[u]@[j2] == w as usize;
                    if u == a as int {
                        if j2 < before[u]@.len() {
                            assert(mid[u]@[j2] == before[u]@[j2]);
                        } else {
                            assert(mid[u]@[j2] == b);
                            assert(false);
                        }
                    } else {
                        assert(mid[u] == before[u]);
                    }
                    assert(adj_edge(before, u, w));
                }
            }
        }
        r = r + 1;
    }
    proof {
        assert forall|u: int, w: int| adj_edge(adj@, u, w) implies adj_edge(adj@, w, u) by {
            let q = choose|q: int| 0 <= q < ends@.len() && ((#[trigger] ends@[q].0 == u && ends@[q].1 == w) || (ends@[q].0 == w && ends@[q].1 == u));
        }
        assert forall|r: int| 0 <= r < ends@.len() implies adj_edge(adj@, (#[trigger] ends@[r]).0 as int, ends@[r].1 as int) by {}
    }
    adj
}


/// Each vertex of `p` is a neighbour of the one before it.
pub open spec fn walk_ok(adj: Seq<Vec<usize>>, p: Seq<int>) -> bool
    decreases p.len(),
{
    if p.len() <= 1 {
        true
    } else {
        walk_ok(adj, p.drop_last()) && adj_edge(adj, p[p.len() - 2], p.last())
    }
}

/// `b` can be reached from `a` along neighbour lists.
pub open spec fn ireach(adj: Seq<Vec<usize>>, a: int, b: int) -> bool {
    exists|p: Seq<int>| #[trigger] walk_ok(adj, p) && p.len() >= 1 && p[0] == a && p.last() == b
}

proof fn lemma_walk_extend(adj: Seq<Vec<usize>>, p: Seq<int>, w: int)
    requires
        walk_ok(adj, p),
        p.len() >= 1,
        adj_edge(adj, p.last(), w),
    ensures
        walk_ok(adj, p.push(w)),
{
    assert(p.push(w).drop_last() =~= p);
}

proof fn lemma_reach_extend(adj: Seq<Vec<usize>>, a: int, v: int, w: int)
    requires
        ireach(adj, a, v),
        adj_edge(adj, v, w),
    ensures
        ireach(adj, a, w),
{
    let p = choose|p: Seq<int>| #[trigger] walk_ok(adj, p) && p.len() >= 1 && p[0] == a && p.last() == v;
    lemma_walk_extend(adj, p, w);
    assert(walk_ok(adj, p.push(w)) && p.push(w).len() >= 1 && p.push(w)[0] == a && p.push(w).last() == w);
}

proof fn lemma_reach_self(adj: Seq<Vec<usize>>, a: int)
    ensures
        ireach(adj, a, a),
{
    assert(walk_ok(adj, seq![a]));
}

proof fn lemma_walk_prepend(adj: Seq<Vec<usize>>, x: int, p: Seq<int>)
    requires
        walk_ok(adj, p),
        p.len() >= 1,
        adj_edge(adj, x, p[0]),
    ensures
        walk_ok(adj, seq![x] + p),
    decreases p.len(),
{
    let q = seq![x] + p;
    if p.len() == 1 {
        assert(q.drop_last() =~= seq![x]);
        assert(walk_ok(adj, seq![x]));
        assert(q[q.len() - 2] == x && q.last() == p[0]);
        assert(q.len() == 2);
        assert(walk_ok(adj, q.drop_last()));
    } else {
        assert(walk_ok(adj, p.drop_last()) && adj_edge(adj, p[p.len() - 2], p.last()));
        assert(p.drop_last()[0] == p[0]);
        lemma_walk_prepend(adj, x, p.drop_last());
        assert(q.drop_last() =~= seq![x] + p.drop_last());
        assert(q[q.len() - 2] == p[p.len() - 2] && q.last() == p.last());
        assert(walk_ok(adj, q.drop_last()));
    }
}

proof fn lemma_walk_reverse(adj: Seq<Vec<usize>>, p: Seq<int>)
    requires
        forall|u: int, w: int| adj_edge(adj, u, w) ==> adj_edge(adj, w, u),
        walk_ok(adj, p),
    ensures
        walk_ok(adj, p.reverse()),
    decreases p.len(),
{
    if p.len() > 1 {
        let t = p.drop_last();
        lemma_walk_reverse(adj, t);
        assert(adj_edge(adj, p.last(), p[p.len() - 2]));
        assert(t.reverse()[0] == p[p.len() - 2]);
        lemma_walk_prepend(adj, p.last(), t.reverse());
        assert(p.reverse() =~= seq![p.last()] + t.reverse());
    }
}

proof fn lemma_reach_symmetric(adj: Seq<Vec<usize>>, a: int, b: int)
    requires
        forall|u: int, w: int| adj_edge(adj, u, w) ==> adj_edge(adj, w, u),
        ireach(adj, a, b),
    ensures
        ireach(adj, b, a),
{
    let p = choose|p: Seq<int>| #[trigger] walk_ok(adj, p) && p.len() >= 1 && p[0] == a && p.last() == b;
    lemma_walk_reverse(adj, p);
    let q = p.reverse();
    assert(q[0] == b && q.last() == a);
    assert(walk_ok(adj, q) && q.len() >= 1);
}

proof fn lemma_walk_closed(adj: Seq<Vec<usize>>, comp: Seq<usize>, x: usize, p: Seq<int>)
    requires
        comp.len() == adj.len(),
        forall|v: int, w: int| 0 <= v < comp.len() && comp[v] == x && adj_edge(adj, v, w) ==> comp[w] == x,
        walk_ok(adj, p),
        p.len() >= 1,
        0 <= p[0] < comp.len(),
        comp[p[0]] == x,
    ensures
        0 <= p.last() < comp.len() && comp[p.last()] == x,
    decreases p.len(),
{
    if p.len() > 1 {
        lemma_walk_closed(adj, comp, x, p.drop_last());
        assert(adj_edge(adj, p[p.len() - 2], p.last()));
    }
}

/// Reaching never leaves a set closed under neighbour lists.
proof fn lemma_reach_closed(adj: Seq<Vec<usize>>, comp: Seq<usize>, x: usize, a: int, b: int)
    requires
        comp.len() == adj.len(),
        forall|v: int, w: int| 0 <= v < comp.len() && comp[v] == x && adj_edge(adj, v, w) ==> comp[w] == x,
        0 <= a < comp.len(),
        comp[a] == x,
        ireach(adj, a, b),
    ensures
        0 <= b < comp.len() && comp[b] == x,
{
    let p = choose|p: Seq<int>| #[trigger] walk_ok(adj, p) && p.len() >= 1 && p[0] == a && p.last() == b;
    lemma_walk_closed(adj, comp, x, p);
}

/// Whether some component lists vertex `v`.
pub open spec fn in_some(comps: Seq<Vec<usize>>, v: int) -> bool {
    exists|c: int| 0 <= c < comps.len() && #[trigger] comps[c]@.contains(v as usize)
}

/// The vertex sets of the connected components of the graph of neighbour
/// lists `adj` that contain one of the first `n_nodes` vertices; see
/// `components_ok`.
pub open spec fn components_ok(adj: Seq<Vec<usize>>, n_nodes: int, comps: Seq<Vec<usize>>) -> bool {
    let n = adj.len() as int;
    &&& forall|c: int| 0 <= c < comps.len() ==> (#[trigger] comps[c])@.len() >= 1 && comps[c]@[0] < n_nodes
    &&& forall|c: int, j: int| 0 <= c < comps.len() && 0 <= j < comps[c]@.len() ==> (#[trigger] comps[c]@[j]) < n
    // members are distinct, within and across components
    &&& forall|c: int, i: int, d: int, j: int|
        0 <= c < comps.len() && 0 <= d < comps.len() && 0 <= i < comps[c]@.len() && 0 <= j < comps[d]@.len()
            && (c != d || i != j) ==> #[trigger] comps[c]@[i] != #[trigger] comps[d]@[j]
    // every member can be reached from the first one, and whatever can be reached is a member
    &&& forall|c: int, j: int| 0 <= c < comps.len() && 0 <= j < comps[c]@.len()
        ==> ireach(adj, comps[c]@[0] as int, #[trigger] comps[c]@[j] as int)
    &&& forall|c: int, v: int| 0 <= c < comps.len() && #[trigger] ireach(adj, comps[c]@[0] as int, v)
        ==> comps[c]@.contains(v as usize)
    // every one of the first n_nodes vertices is in some component
    &&& forall|v: int| 0 <= v < n_nodes ==> #[trigger] in_some(comps, v)
    // components come in order of their first vertex, which is the first they reach
    &&& forall|c: int, d: int| 0 <= c < d < comps.len() ==> #[trigger] comps[c]@[0] < #[trigger] comps[d]@[0]
    &&& forall|c: int, v: int| 0 <= c < comps.len() && 0 <= v < n_nodes && ireach(adj, comps[c]@[0] as int, v)
        ==> comps[c]@[0] <= v
}


/// Neighbour lists over `n` vertices that list each link both ways.
pub open spec fn symmetric_lists(adj: Seq<Vec<usize>>) -> bool {
    &&& forall|u: int, j: int| 0 <= u < adj.len() && 0 <= j < adj[u]@.len() ==> (#[trigger] adj[u]@[j]) < adj.len()
    &&& forall|u: int, w: int| adj_edge(adj, u, w) ==> adj_edge(adj, w, u)
}

/// Visits the component of `root` breadth-first, marking its vertices with
/// `mark` in `comp`; returns them in visiting order.
fn visit_component(adj: &Vec<Vec<usize>>, comp: &mut Vec<usize>, root: usize, mark: usize) -> (queue: Vec<usize>)
    requires
        symmetric_lists(adj@),
        old(comp)@.len() == adj@.len(),
        root < adj@.len(),
        old(comp)@[root as int] == 0,
        mark > 0,
        forall|v: int| 0 <= v < old(comp)@.len() ==> old(comp)@[v] != mark,
        forall|v: int, w: int| 0 <= v < old(comp)@.len() && old(comp)@[v] != 0 && adj_edge(adj@, v, w)
            ==> old(comp)@[w] == old(comp)@[v],
    ensures
        final(comp)@.len() == adj@.len(),
        queue@.len() >= 1,
        queue@[0] == root,
        forall|j: int| 0 <= j < queue@.len() ==> (#[trigger] queue@[j]) < adj@.len() && final(comp)@[queue@[j] as int] == mark,
        forall|v: int| 0 <= v < adj@.len() && final(comp)@[v] == mark ==> queue@.contains(v as usize),
        forall|i: int, j: int| 0 <= i < queue@.len() && 0 <= j < queue@.len() && i != j ==> queue@[i] != queue@[j],
        forall|v: int| 0 <= v < adj@.len() && old(comp)@[v] != 0 ==> final(comp)@[v] == old(comp)@[v],
        forall|v: int| 0 <= v < adj@.len() && final(comp)@[v] != old(comp)@[v] ==> old(comp)@[v] == 0 && final(comp)@[v] == mark,
        forall|v: int, w: int| 0 <= v < adj@.len() && final(comp)@[v] != 0 && adj_edge(adj@, v, w)
            ==> final(comp)@[w] == final(comp)@[v],
        forall|j: int| 0 <= j < queue@.len() ==> ireach(adj@, root as int, #[trigger] queue@[j] as int),
{
    let ghost old_comp = comp@;
    let nn = adj.len();
    let ghost n = adj@.len();
    assert(n <= usize::MAX);
    let mut queue: Vec<usize> = Vec::new();
    queue.push(root);
    comp.set(root, mark);
    proof {
        lemma_reach_self(adj@, root as int);
    }
    proof {
        assert forall|v: int| 0 <= v < n && comp@[v] == mark implies queue@.contains(v as usize) by {
            if v != root as int {
                assert(comp@[v] == old_comp[v]);
            } else {
                assert(queue@[0] == root);
            }
        }
    }
    let mut head: usize = 0;
    while head < queue.len()
        invariant
            symmetric_lists(adj@),
            n == adj@.len(),
            n <= usize::MAX,
            comp@.len() == n,
            old_comp.len() == n,
            mark > 0,
            forall|v: int| 0 <= v < n ==> old_comp[v] != mark,
            forall|v: int, w: int| 0 <= v < n && old_comp[v] != 0 && adj_edge(adj@, v, w) ==> old_comp[w] == old_comp[v],
            old_comp[root as int] == 0,
            queue@.len() >= 1,
            queue@[0] == root,
            head <= queue@.len(),
            queue@.len() <= n,
            forall|j: int| 0 <= j < queue@.len() ==> (#[trigger] queue@[j]) < n && comp@[queue@[j] as int] == mark,
            forall|v: int| 0 <= v < n && comp@[v] == mark ==> queue@.contains(v as usize),
            forall|i: int, j: int| 0 <= i < queue@.len() && 0 <= j < queue@.len() && i != j ==> queue@[i] != queue@[j],
            forall|j: int, w: int| 0 <= j < head && adj_edge(adj@, queue@[j] as int, w) ==> comp@[w] == mark,
            forall|v: int| 0 <= v < n && old_comp[v] != 0 ==> comp@[v] == old_comp[v],
            forall|v: int| 0 <= v < n && comp@[v] != old_comp[v] ==> old_comp[v] == 0 && comp@[v] == mark,
            forall|j: int| 0 <= j < queue@.len() ==> ireach(adj@, root as int, #[trigger] queue@[j] as int),
        decreases n - head,
    {
        let v = queue[head];
        let nbrs = &adj[v];
        let mut t: usize = 0;
        while t < nbrs.len()
            invariant
                symmetric_lists(adj@),
                n == adj@.len(),
                n <= usize::MAX,
                nbrs@ == adj@[v as int]@,
                v < n,
                comp@.len() == n,
                old_comp.len() == n,
                mark > 0,
                forall|x: int| 0 <= x < n ==> old_comp[x] != mark,
                old_comp[root as int] == 0,
                queue@.len() >= 1,
                queue@[0] == root,
                head < queue@.len(),
                queue@[head as int] == v,
                queue@.len() <= n,
                forall|x: int, y: int| 0 <= x < n && old_comp[x] != 0 && adj_edge(adj@, x, y) ==> old_comp[y] == old_comp[x],
                forall|j: int| 0 <= j < queue@.len() ==> (#[trigger] queue@[j]) < n && comp@[queue@[j] as int] == mark,
                forall|x: int| 0 <= x < n && comp@[x] == mark ==> queue@.contains(x as usize),
                forall|i: int, j: int| 0 <= i < queue@.len() && 0 <= j < queue@.len() && i != j ==> queue@[i] != queue@[j],
                forall|j: int, w: int| 0 <= j < head && adj_edge(adj@, queue@[j] as int, w) ==> comp@[w] == mark,
                forall|x: int| 0 <= x < n && old_comp[x] != 0 ==> comp@[x] == old_comp[x],
                forall|x: int| 0 <= x < n && comp@[x] != old_comp[x] ==> old_comp[x] == 0 && comp@[x] == mark,
                forall|j: int| 0 <= j < queue@.len() ==> ireach(adj@, root as int, #[trigger] queue@[j] as int),
                0 <= t <= nbrs@.len(),
                forall|u: int| 0 <= u < t ==> comp@[nbrs@[u] as int] == mark,
            decreases nbrs@.len() - t,
        {
            let w = nbrs[t];
            assert(adj@[v as int]@[t as int] == w);
            assert(w < n);
            if comp[w] == 0 {
                let ghost qb = queue@;
                let ghost cb = comp@;
                comp.set(w, mark);
                queue.push(w);
                proof {
                    assert(adj_edge(adj@, v as int, w as int));
                    assert(ireach(adj@, root as int, v as int));
                    lemma_reach_extend(adj@, root as int, v as int, w as int);
                    assert forall|x: int| 0 <= x < n && comp@[x] == mark implies queue@.contains(x as usize) by {
                        if x != w as int {
                            assert(cb[x] == mark);
                            assert(qb.contains(x as usize));
                            let j = choose|j: int| 0 <= j < qb.len() && qb[j] == x as usize;
                            assert(queue@[j] == x as usize);
                        } else {
                            assert(queue@[queue@.len() - 1] == w);
                        }
                    }
                    assert forall|i: int, j: int| 0 <= i < queue@.len() && 0 <= j < queue@.len() && i != j implies queue@[i] != queue@[j] by {
                        if i < qb.len() && j < qb.len() {
                        } else if i < qb.len() {
                            assert(cb[qb[i] as int] == mark);
                        } else if j < qb.len() {
                            assert(cb[qb[j] as int] == mark);
                        }
                    }
                    assert forall|j: int| 0 <= j < queue@.len() implies (#[trigger] queue@[j]) < n && comp@[queue@[j] as int] == mark by {
                        if j < qb.len() {
                            assert(queue@[j] == qb[j]);
                        }
                    }
                    assert forall|j: int| 0 <= j < queue@.len() implies ireach(adj@, root as int, #[trigger] queue@[j] as int) by {
                        if j < qb.len() {
                            assert(queue@[j] == qb[j]);
                        }
                    }
                    assert(queue@.len() <= n) by {
                        // the queue holds distinct vertices below n
                        lemma_distinct_bounded(queue@, n as int);
                    }
                }
            } else {
                proof {
                    assert(comp@[v as int] == mark);
                    assert(old_comp[v as int] == 0);
                    if comp@[w as int] != mark {
                        assert(old_comp[w as int] != 0);
                        assert(comp@[w as int] == old_comp[w as int]);
                        assert(adj_edge(adj@, v as int, w as int));
                        assert(adj_edge(adj@, w as int, v as int));
                        assert(old_comp[v as int] == old_comp[w as int]);
                        assert(false);
                    }
                }
            }
            t = t + 1;
        }
        proof {
            assert forall|j: int, w: int| 0 <= j < head + 1 && adj_edge(adj@, queue@[j] as int, w) implies comp@[w] == mark by {
                if j == head as int {
                    assert(queue@[j] == v);
                    assert(adj@[v as int]@.contains(w as usize));
                    let u = choose|u: int| 0 <= u < adj@[v as int]@.len() && adj@[v as int]@[u] == w as usize;
                    assert(nbrs@[u] == w as usize);
                    assert(comp@[nbrs@[u] as int] == mark);
                } else {
                    assert(0 <= j < head && adj_edge(adj@, queue@[j] as int, w));
                }
            }
        }
        head = head + 1;
    }
    proof {
        assert forall|x: int, w: int| 0 <= x < n && comp@[x] != 0 && adj_edge(adj@, x, w) implies comp@[w] == comp@[x] by {
            if comp@[x] == mark {
                assert(queue@.contains(x as usize));
                let j = choose|j: int| 0 <= j < queue@.len() && queue@[j] == x as usize;
                assert(queue@[j] as int == x);
                assert(adj_edge(adj@, queue@[j] as int, w));
            } else {
                assert(old_comp[x] != 0);
                assert(old_comp[w] == old_comp[x]);
            }
        }
    }
    queue
}

/// The connected components of the graph of neighbour lists `adj` that
/// contain one of the first `n_nodes` vertices, numbered in order of their
/// first such vertex (see `components_ok`).
pub(crate) fn find_components(adj: &Vec<Vec<usize>>, n_nodes: usize) -> (comps: Vec<Vec<usize>>)
    requires
        symmetric_lists(adj@),
        n_nodes <= adj@.len(),
    ensures
        components_ok(adj@, n_nodes as int, comps@),
{
    let n = adj.len();
    let mut comp: Vec<usize> = Vec::new();
    let mut i: usize = 0;
    while i < n
        invariant
            0 <= i <= n,
            comp@.len() == i,
            forall|v: int| 0 <= v < i ==> comp@[v] == 0,
        decreases n - i,
    {
        comp.push(0);
        i = i + 1;
    }
    let mut comps: Vec<Vec<usize>> = Vec::new();
    let mut k: usize = 0;
    while k < n_nodes
        invariant
            symmetric_lists(adj@),
            n == adj@.len(),
            n_nodes <= n,
            0 <= k <= n_nodes,
            comps@.len() <= k,
            comp@.len() == n,
            forall|v: int| 0 <= v < n ==> comp@[v] <= comps@.len(),
            forall|c: int| 0 <= c < comps@.len() ==> (#[trigger] comps@[c])@.len() >= 1 && comps@[c]@[0] < k,
            forall|c: int, j: int| 0 <= c < comps@.len() && 0 <= j < comps@[c]@.len()
                ==> (#[trigger] comps@[c]@[j]) < n && comp@[comps@[c]@[j] as int] == c + 1,
            forall|v: int| 0 <= v < n && comp@[v] != 0 ==> comps@[comp@[v] - 1]@.contains(v as usize),
            forall|c: int, i: int, j: int| 0 <= c < comps@.len() && 0 <= i < comps@[c]@.len() && 0 <= j < comps@[c]@.len()
                && i != j ==> comps@[c]@[i] != comps@[c]@[j],
            forall|v: int, w: int| 0 <= v < n && comp@[v] != 0 && adj_edge(adj@, v, w) ==> comp@[w] == comp@[v],
            forall|c: int, j: int| 0 <= c < comps@.len() && 0 <= j < comps@[c]@.len()
                ==> ireach(adj@, comps@[c]@[0] as int, #[trigger] comps@[c]@[j] as int),
            forall|c: int, d: int| 0 <= c < d < comps@.len() ==> #[trigger] comps@[c]@[0] < #[trigger] comps@[d]@[0],
            forall|v: int| 0 <= v < k ==> comp@[v] != 0,
            forall|c: int, v: int| 0 <= c < comps@.len() && 0 <= v < n_nodes && ireach(adj@, comps@[c]@[0] as int, v)
                ==> comps@[c]@[0] <= v,
        decreases n_nodes - k,
    {
        if comp[k] == 0 {
            let c = comps.len();
            let ghost before = comp@;
            proof {
                assert forall|v: int| 0 <= v < n_nodes && ireach(adj@, k as int, v) implies k <= v by {
                    if v < k {
                        assert(before[v] != 0);
                        lemma_reach_symmetric(adj@, k as int, v);
                        lemma_reach_closed(adj@, before, before[v], v, k as int);
                    }
                }
            }
            let queue = visit_component(adj, &mut comp, k, c + 1);
            let ghost old_comps = comps@;
            comps.push(queue);
            proof {
                assert(comps@[c as int] == queue);
                assert forall|c2: int, j: int| 0 <= c2 < comps@.len() && 0 <= j < comps@[c2]@.len()
                    implies (#[trigger] comps@[c2]@[j]) < n && comp@[comps@[c2]@[j] as int] == c2 + 1 by {
                    if c2 < c {
                        assert(comps@[c2] == old_comps[c2]);
                        assert(before[old_comps[c2]@[j] as int] == c2 + 1);
                    }
                }
                assert forall|v: int| 0 <= v < n && comp@[v] != 0 implies comps@[comp@[v] - 1]@.contains(v as usize) by {
                    if comp@[v] != before[v] {
                    } else {
                        assert(comps@[comp@[v] - 1] == old_comps[comp@[v] - 1]);
                    }
                }
                assert forall|c2: int, i: int, j: int| 0 <= c2 < comps@.len() && 0 <= i < comps@[c2]@.len() && 0 <= j < comps@[c2]@.len()
                    && i != j implies comps@[c2]@[i] != comps@[c2]@[j] by {
                    if c2 < c {
                        assert(comps@[c2] == old_comps[c2]);
                    }
                }
                assert forall|c2: int, j: int| 0 <= c2 < comps@.len() && 0 <= j < comps@[c2]@.len()
                    implies ireach(adj@, comps@[c2]@[0] as int, #[trigger] comps@[c2]@[j] as int) by {
                    if c2 < c {
                        assert(comps@[c2] == old_comps[c2]);
                    }
                }
                assert forall|c2: int, d: int| 0 <= c2 < d < comps@.len() implies #[trigger] comps@[c2]@[0] < #[trigger] comps@[d]@[0] by {
                    assert(comps@[c2] == old_comps[c2]);
                    if d < c {
                        assert(comps@[d] == old_comps[d]);
                    }
                }
                assert forall|c2: int, v: int| 0 <= c2 < comps@.len() && 0 <= v < n_nodes && ireach(adj@, comps@[c2]@[0] as int, v)
                    implies comps@[c2]@[0] <= v by {
                    if c2 < c {
                        assert(comps@[c2] == old_comps[c2]);
                    }
                }
                assert forall|c2: int| 0 <= c2 < comps@.len() implies (#[trigger] comps@[c2])@.len() >= 1 && comps@[c2]@[0] < k + 1 by {
                    if c2 < c {
                        assert(comps@[c2] == old_comps[c2]);
                    }
                }
            }
        }
        k = k + 1;
    }
    proof {
        assert forall|c: int, i: int, d: int, j: int|
            0 <= c < comps@.len() && 0 <= d < comps@.len() && 0 <= i < comps@[c]@.len() && 0 <= j < comps@[d]@.len()
                && (c != d || i != j) implies #[trigger] comps@[c]@[i] != #[trigger] comps@[d]@[j] by {
            if c != d {
                assert(comp@[comps@[c]@[i] as int] == c + 1);
                assert(comp@[comps@[d]@[j] as int] == d + 1);
            }
        }
        assert forall|c: int, v: int| 0 <= c < comps@.len() && #[trigger] ireach(adj@, comps@[c]@[0] as int, v)
            implies comps@[c]@.contains(v as usize) by {
            let r = comps@[c]@[0];
            assert(comp@[r as int] == c + 1);
            lemma_reach_closed(adj@, comp@, (c + 1) as usize, r as int, v);
        }
        assert forall|v: int| 0 <= v < n_nodes implies #[trigger] in_some(comps@, v) by {
            assert(comp@[v] != 0);
            assert(comps@[comp@[v] - 1]@.contains(v as usize));
        }
    }
    comps
}

/// Some relationship joins `a` and `b`, in one direction or the other.
pub open spec fn linked(rels: Seq<GraphRelationship>, a: Seq<char>, b: Seq<char>) -> bool {
    exists|r: int|
        0 <= r < rels.len() && ((#[trigger] rels[r].source_id@ == a && rels[r].target_id@ == b) || (
        rels[r].source_id@ == b && rels[r].target_id@ == a))
}

/// Each id of `p` is linked to the one before it.
pub open spec fn id_walk(rels: Seq<GraphRelationship>, p: Seq<Seq<char>>) -> bool
    decreases p.len(),
{
    if p.len() <= 1 {
        true
    } else {
        id_walk(rels, p.drop_last()) && linked(rels, p[p.len() - 2], p.last())
    }
}

/// `b` is connected to `a` by a chain of relationships, taken in either
/// direction.
pub open spec fn connected(rels: Seq<GraphRelationship>, a: Seq<char>, b: Seq<char>) -> bool {
    exists|p: Seq<Seq<char>>| #[trigger] id_walk(rels, p) && p.len() >= 1 && p[0] == a && p.last() == b
}

/// Whether some list of `comps` holds `x`.
pub open spec fn listed(comps: Seq<Seq<Seq<char>>>, x: Seq<char>) -> bool {
    exists|c: int| 0 <= c < comps.len() && #[trigger] comps[c].contains(x)
}

/// `comps` lists the connected components of the graph that hold a node, as
/// id lists: each starts with the first node (in node order) it holds, they
/// come in the order of those first nodes, every node is in one, and no id
/// is listed twice.
pub open spec fn communities_ok(nodes: Seq<GraphNode>, rels: Seq<GraphRelationship>, comps: Seq<Seq<Seq<char>>>) -> bool {
    &&& forall|c: int| 0 <= c < comps.len() ==> (#[trigger] comps[c]).len() >= 1 && crate::graph::has_node_id(nodes, comps[c][0])
    &&& forall|c: int, i: int, d: int, j: int|
        0 <= c < comps.len() && 0 <= d < comps.len() && 0 <= i < comps[c].len() && 0 <= j < comps[d].len()
            && (c != d || i != j) ==> #[trigger] comps[c][i] != #[trigger] comps[d][j]
    &&& forall|c: int, j: int| 0 <= c < comps.len() && 0 <= j < comps[c].len()
        ==> connected(rels, comps[c][0], #[trigger] comps[c][j])
    &&& forall|c: int, y: Seq<char>| 0 <= c < comps.len() && #[trigger] connected(rels, comps[c][0], y)
        ==> comps[c].contains(y)
    &&& forall|i: int| 0 <= i < nodes.len() ==> #[trigger] listed(comps, nodes[i].id@)
    &&& forall|c: int, d: int, i: int, j: int| #![trigger nodes[i], nodes[j], comps[c], comps[d]]
        0 <= c < d < comps.len() && 0 <= i < nodes.len() && 0 <= j < nodes.len()
        && nodes[i].id@ == comps[c][0] && nodes[j].id@ == comps[d][0] ==> i < j
    &&& forall|c: int, i: int, j: int| #![trigger nodes[i], nodes[j], comps[c]]
        0 <= c < comps.len() && 0 <= i < nodes.len() && 0 <= j < nodes.len()
        && nodes[i].id@ == comps[c][0] && connected(rels, comps[c][0], nodes[j].id@) ==> i <= j
}

proof fn lemma_index_walk_to_ids(
    adj: Seq<Vec<usize>>,
    t: VertexTable,
    nodes: Seq<GraphNode>,
    rels: Seq<GraphRelationship>,
    p: Seq<int>,
)
    requires
        table_ok(t, nodes, rels),
        adjacency_ok(adj, t.ends@, texts(t.ids@).len() as int),
        walk_ok(adj, p),
        p.len() >= 1,
        0 <= p[0] < adj.len(),
    ensures
        id_walk(rels, p.map_values(|x: int| texts(t.ids@)[x])),
        forall|k: int| 0 <= k < p.len() ==> 0 <= #[trigger] p[k] < adj.len(),
    decreases p.len(),
{
    let v = texts(t.ids@);
    let q = p.map_values(|x: int| v[x]);
    if p.len() > 1 {
        let pd = p.drop_last();
        lemma_index_walk_to_ids(adj, t, nodes, rels, pd);
        assert(q.drop_last() =~= pd.map_values(|x: int| v[x]));
        let u = p[p.len() - 2];
        let w = p.last();
        assert(adj_edge(adj, u, w));
        let r = choose|r: int|
            0 <= r < t.ends@.len() && ((#[trigger] t.ends@[r].0 == u && t.ends@[r].1 == w) || (t.ends@[r].0 == w
                && t.ends@[r].1 == u));
        assert(v[t.ends@[r].0 as int] == rels[r].source_id@);
        assert(q[q.len() - 2] == v[u] && q.last() == v[w]);
        assert(linked(rels, v[u], v[w]));
        assert forall|k: int| 0 <= k < p.len() implies 0 <= #[trigger] p[k] < adj.len() by {
            if k < p.len() - 1 {
                assert(p[k] == pd[k]);
            }
        }
    }
}

proof fn lemma_ids_walk_to_index(
    adj: Seq<Vec<usize>>,
    t: VertexTable,
    nodes: Seq<GraphNode>,
    rels: Seq<GraphRelationship>,
    p: Seq<Seq<char>>,
    a: int,
) -> (b: int)
    requires
        table_ok(t, nodes, rels),
        adjacency_ok(adj, t.ends@, texts(t.ids@).len() as int),
        id_walk(rels, p),
        p.len() >= 1,
        0 <= a < adj.len(),
        p[0] == texts(t.ids@)[a],
    ensures
        0 <= b < adj.len(),
        ireach(adj, a, b),
        texts(t.ids@)[b] == p.last(),
    decreases p.len(),
{
    let v = texts(t.ids@);
    if p.len() == 1 {
        lemma_reach_self(adj, a);
        a
    } else {
        let pd = p.drop_last();
        assert(pd[0] == p[0]);
        let u = lemma_ids_walk_to_index(adj, t, nodes, rels, pd, a);
        assert(v[u] == p[p.len() - 2]);
        let x = p[p.len() - 2];
        let y = p.last();
        assert(linked(rels, x, y));
        let r = choose|r: int|
            0 <= r < rels.len() && ((#[trigger] rels[r].source_id@ == x && rels[r].target_id@ == y) || (
            rels[r].source_id@ == y && rels[r].target_id@ == x));
        let e = t.ends@[r];
        assert(adj_edge(adj, e.0 as int, e.1 as int));
        if rels[r].source_id@ == x && rels[r].target_id@ == y {
            assert(v[e.0 as int] == x);
            assert(e.0 as int == u);
            lemma_reach_extend(adj, a, u, e.1 as int);
            e.1 as int
        } else {
            assert(v[e.1 as int] == x);
            assert(e.1 as int == u);
            assert(adj_edge(adj, e.1 as int, e.0 as int));
            lemma_reach_extend(adj, a, u, e.0 as int);
            e.0 as int
        }
    }
}

/// The connected components of the graph that hold a node, as id lists
/// (see `communities_ok`).
pub fn detect_components(graph: &KnowledgeGraph) -> (comps: Vec<Vec<String>>)
    ensures
        communities_ok(graph.node_list(), graph.rel_list(), comps@.map_values(|c: Vec<String>| texts(c@))),
{
    let t = vertex_table(graph);
    let n = t.ids.len();
    let adj = adjacency(n, &t.ends);
    let n_nodes = graph.node_count();
    let ghost v = texts(t.ids@);
    let ghost nodes = graph.node_list();
    let ghost rels = graph.rel_list();
    proof {
        assert forall|r: int| 0 <= r < t.ends@.len() implies (#[trigger] t.ends@[r]).0 < n && t.ends@[r].1 < n by {}
    }
    let icomps = find_components(&adj, n_nodes);
    let mut comps: Vec<Vec<String>> = Vec::new();
    let mut c: usize = 0;
    while c < icomps.len()
        invariant
            0 <= c <= icomps@.len(),
            comps@.len() == c,
            v == texts(t.ids@),
            n == v.len(),
            components_ok(adj@, n_nodes as int, icomps@),
            adj@.len() == n,
            forall|d: int| 0 <= d < c ==> (#[trigger] comps@[d])@.len() == icomps@[d]@.len(),
            forall|d: int, j: int| 0 <= d < c && 0 <= j < comps@[d]@.len() ==> (#[trigger] comps@[d]@[j])@ == v[icomps@[d]@[j] as int],
        decreases icomps@.len() - c,
    {
        let members = &icomps[c];
        let mut row: Vec<String> = Vec::new();
        let mut j: usize = 0;
        while j < members.len()
            invariant
                0 <= j <= members@.len(),
                members@ == icomps@[c as int]@,
                c < icomps@.len(),
                components_ok(adj@, n_nodes as int, icomps@),
                adj@.len() == n,
                v == texts(t.ids@),
                n == v.len(),
                row@.len() == j,
                forall|k: int| 0 <= k < j ==> (#[trigger] row@[k])@ == v[members@[k] as int],
            decreases members@.len() - j,
        {
            assert(icomps@[c as int]@[j as int] < n);
            row.push(t.ids[members[j]].clone());
            j = j + 1;
        }
        comps.push(row);
        c = c + 1;
    }
    proof {
        let tc = comps@.map_values(|x: Vec<String>| texts(x@));
        assert forall|d: int, j: int| 0 <= d < tc.len() && 0 <= j < tc[d].len() implies #[trigger] tc[d][j] == v[icomps@[d]@[j] as int] by {
            assert(tc[d][j] == comps@[d]@[j]@);
        }
        assert forall|d: int| 0 <= d < tc.len() implies (#[trigger] tc[d]).len() >= 1 && crate::graph::has_node_id(nodes, tc[d][0]) by {
            let r = icomps@[d]@[0] as int;
            assert(tc[d][0] == v[r]);
            assert(v[r] == nodes[r].id@);
        }
        assert forall|c1: int, i: int, d: int, j: int|
            0 <= c1 < tc.len() && 0 <= d < tc.len() && 0 <= i < tc[c1].len() && 0 <= j < tc[d].len()
                && (c1 != d || i != j) implies #[trigger] tc[c1][i] != #[trigger] tc[d][j] by {
            assert(icomps@[c1]@[i] != icomps@[d]@[j]);
            assert(tc[c1][i] == v[icomps@[c1]@[i] as int]);
            assert(tc[d][j] == v[icomps@[d]@[j] as int]);
        }
        assert forall|d: int, j: int| 0 <= d < tc.len() && 0 <= j < tc[d].len()
            implies connected(rels, tc[d][0], #[trigger] tc[d][j]) by {
            let a = icomps@[d]@[0] as int;
            let b = icomps@[d]@[j] as int;
            assert(ireach(adj@, a, b));
            let p = choose|p: Seq<int>| #[trigger] walk_ok(adj@, p) && p.len() >= 1 && p[0] == a && p.last() == b;
            lemma_index_walk_to_ids(adj@, t, nodes, rels, p);
            let q = p.map_values(|x: int| v[x]);
            assert(q[0] == tc[d][0] && q.last() == tc[d][j]);
            assert(id_walk(rels, q) && q.len() >= 1);
        }
        assert forall|d: int, y: Seq<char>| 0 <= d < tc.len() && #[trigger] connected(rels, tc[d][0], y)
            implies tc[d].contains(y) by {
            let a = icomps@[d]@[0] as int;
            let p = choose|p: Seq<Seq<char>>| #[trigger] id_walk(rels, p) && p.len() >= 1 && p[0] == tc[d][0] && p.last() == y;
            let b = lemma_ids_walk_to_index(adj@, t, nodes, rels, p, a);
            assert(icomps@[d]@.contains(b as usize));
            let j = choose|j: int| 0 <= j < icomps@[d]@.len() && icomps@[d]@[j] == b as usize;
            assert(tc[d][j] == y);
        }
        assert forall|i: int| 0 <= i < nodes.len() implies #[trigger] listed(tc, nodes[i].id@) by {
            assert(in_some(icomps@, i));
            let d = choose|d: int| 0 <= d < icomps@.len() && #[trigger] icomps@[d]@.contains(i as usize);
            let j = choose|j: int| 0 <= j < icomps@[d]@.len() && icomps@[d]@[j] == i as usize;
            assert(tc[d][j] == v[i]);
            assert(tc[d].contains(nodes[i].id@));
        }
        assert forall|c1: int, d: int, i: int, j: int| #![trigger nodes[i], nodes[j], tc[c1], tc[d]]
            0 <= c1 < d < tc.len() && 0 <= i < nodes.len() && 0 <= j < nodes.len()
            && nodes[i].id@ == tc[c1][0] && nodes[j].id@ == tc[d][0] implies i < j by {
            let a = icomps@[c1]@[0] as int;
            let b = icomps@[d]@[0] as int;
            assert(v[a] == nodes[a].id@ && v[b] == nodes[b].id@);
            assert(v[i] == nodes[i].id@ && v[j] == nodes[j].id@);
            assert(i == a);
            assert(j == b);
        }
        assert forall|c1: int, i: int, j: int| #![trigger nodes[i], nodes[j], tc[c1]]
            0 <= c1 < tc.len() && 0 <= i < nodes.len() && 0 <= j < nodes.len()
            && nodes[i].id@ == tc[c1][0] && connected(rels, tc[c1][0], nodes[j].id@) implies i <= j by {
            let a = icomps@[c1]@[0] as int;
            assert(v[a] == nodes[a].id@);
            assert(v[i] == nodes[i].id@ && v[j] == nodes[j].id@);
            assert(i == a);
            let p = choose|p: Seq<Seq<char>>| #[trigger] id_walk(rels, p) && p.len() >= 1 && p[0] == tc[c1][0] && p.last() == nodes[j].id@;
            let b = lemma_ids_walk_to_index(adj@, t, nodes, rels, p, a);
            assert(v[b] == v[j]);
            assert(b == j);
        }
    }
    comps
}

/// `community:{uuid}`.
pub open spec fn community_id(u: Seq<char>) -> Seq<char> {
    "community:"@ + u
}

/// `Community {index}`.
pub open spec fn community_name(c: nat) -> Seq<char> {
    "Community "@ + decimal(c)
}

/// The Community nodes for the components of two or more members, in
/// component order; component `c` gets the id made of `uuids[c]`.
pub open spec fn community_nodes(comps: Seq<Seq<Seq<char>>>, uuids: Seq<Seq<char>>) -> Seq<NodeView>
    decreases comps.len(),
{
    if comps.len() == 0 {
        seq![]
    } else {
        let rest = community_nodes(comps.drop_last(), uuids);
        let c = comps.len() - 1;
        if comps.last().len() >= 2 {
            rest.push(
                NodeView {
                    id: community_id(uuids[c]),
                    kind: NodeKind::Community,
                    name: community_name(c as nat),
                    properties: seq![],
                },
            )
        } else {
            rest
        }
    }
}

/// The PART_OF_COMMUNITY relationships from each member to its community.
pub open spec fn member_rels(cid: Seq<char>, members: Seq<Seq<char>>) -> Seq<RelView> {
    members.map_values(
        |m: Seq<char>|
            RelView {
                id: "partof:"@ + cid + ":"@ + m,
                kind: RelationshipKind::PartOfCommunity,
                source_id: m,
                target_id: cid,
                properties: seq![],
            },
    )
}

/// The membership relationships of all communities, component by component.
pub open spec fn community_rels(comps: Seq<Seq<Seq<char>>>, uuids: Seq<Seq<char>>) -> Seq<RelView>
    decreases comps.len(),
{
    if comps.len() == 0 {
        seq![]
    } else {
        let rest = community_rels(comps.drop_last(), uuids);
        let c = comps.len() - 1;
        if comps.last().len() >= 2 {
            rest + member_rels(community_id(uuids[c]), comps.last())
        } else {
            rest
        }
    }
}

/// The graph after each node value is added, in order.
pub open spec fn with_nodes(g: GraphView, ns: Seq<NodeView>) -> GraphView
    decreases ns.len(),
{
    if ns.len() == 0 {
        g
    } else {
        view_add_node(with_nodes(g, ns.drop_last()), ns.last())
    }
}

/// The graph after the communities of `comps` are added: first all
/// Community nodes, then all membership relationships.
pub open spec fn with_communities(g: GraphView, comps: Seq<Seq<Seq<char>>>, uuids: Seq<Seq<char>>) -> GraphView {
    with_rels(with_nodes(g, community_nodes(comps, uuids)), community_rels(comps, uuids))
}

/// Adds a Community node for every component of two or more members, and a
/// PART_OF_COMMUNITY relationship from each member to it; component `c` is
/// named `Community {c}` and gets the id `community:{uuids[c]}`.
pub fn add_communities(graph: &mut KnowledgeGraph, comps: &Vec<Vec<String>>, uuids: &Vec<String>)
    requires
        uuids@.len() == comps@.len(),
    ensures
        final(graph).gview() == with_communities(
            old(graph).gview(),
            comps@.map_values(|c: Vec<String>| texts(c@)),
            texts(uuids@),
        ),
{
    let ghost tc = comps@.map_values(|c: Vec<String>| texts(c@));
    let ghost tu = texts(uuids@);
    let mut nodes: Vec<GraphNode> = Vec::new();
    let mut rels: Vec<GraphRelationship> = Vec::new();
    let mut c: usize = 0;
    while c < comps.len()
        invariant
            0 <= c <= comps@.len(),
            uuids@.len() == comps@.len(),
            tc == comps@.map_values(|c: Vec<String>| texts(c@)),
            tu == texts(uuids@),
            nodes@.map_values(|n: GraphNode| n@) == community_nodes(tc.take(c as int), tu),
            rels@.map_values(|r: GraphRelationship| r@) == community_rels(tc.take(c as int), tu),
        decreases comps@.len() - c,
    {
        proof {
            assert(tc.take(c + 1).drop_last() =~= tc.take(c as int));
            assert(tc.take(c + 1).last() == texts(comps@[c as int]@));
        }
        let members = &comps[c];
        if members.len() >= 2 {
            let cid = concat2("community:", uuids[c].as_str());
            let mut name = String::new();
            crate::text::push_str(&mut name, "Community ");
            push_padded(&mut name, c as u64, 0);
            proof {
                assert(zero_padded(c as nat, 0) == decimal(c as nat));
                assert(name@ =~= community_name(c as nat));
            }
            let node = GraphNode::new(cid.as_str(), NodeKind::Community, name.as_str());
            assert(node@.properties =~= seq![]);
            let ghost nb = nodes@;
            nodes.push(node);
            assert(nodes@.map_values(|n: GraphNode| n@) =~= nb.map_values(|n: GraphNode| n@).push(node@));
            let ghost rb = rels@.map_values(|r: GraphRelationship| r@);
            let ghost ms = texts(members@);
            let mut j: usize = 0;
            while j < members.len()
                invariant
                    0 <= j <= members@.len(),
                    ms == texts(members@),
                    cid@ == community_id(tu[c as int]),
                    rels@.map_values(|r: GraphRelationship| r@) == rb + member_rels(cid@, ms.take(j as int)),
                decreases members@.len() - j,
            {
                let m = members[j].as_str();
                let rel_id = concat4("partof:", cid.as_str(), ":", m);
                let rel = GraphRelationship::new(rel_id.as_str(), RelationshipKind::PartOfCommunity, m, cid.as_str());
                assert(rel@.properties =~= seq![]);
                let ghost before = rels@;
                rels.push(rel);
                proof {
                    assert(ms.take(j + 1) =~= ms.take(j as int).push(ms[j as int]));
                    assert(member_rels(cid@, ms.take(j + 1)) =~= member_rels(cid@, ms.take(j as int)).push(rel@));
                    assert(rels@.map_values(|r: GraphRelationship| r@) =~= before.map_values(|r: GraphRelationship| r@).push(rel@));
                }
                j = j + 1;
            }
            assert(ms.take(members@.len() as int) =~= ms);
        }
        c = c + 1;
    }
    assert(tc.take(comps@.len() as int) =~= tc);
    let ghost g0 = graph.gview();
    let ghost nv = community_nodes(tc, tu);
    for node in it: nodes.into_iter()
        invariant
            it.seq().map_values(|n: GraphNode| n@) == nv,
            graph.gview() == with_nodes(g0, nv.take(it.index() as int)),
    {
        proof {
            assert(nv.take(it.index() + 1).drop_last() =~= nv.take(it.index() as int));
            assert(node@ == nv[it.index() as int]);
        }
        graph.add_node(node);
    }
    assert(nv.take(nv.len() as int) =~= nv);
    let ghost g1 = graph.gview();
    let ghost rv = community_rels(tc, tu);
    for rel in it: rels.into_iter()
        invariant
            it.seq().map_values(|r: GraphRelationship| r@) == rv,
            graph.gview() == with_rels(g1, rv.take(it.index() as int)),
    {
        proof {
            assert(rv.take(it.index() + 1).drop_last() =~= rv.take(it.index() as int));
            assert(rel@ == rv[it.index() as int]);
        }
        graph.add_relationship(rel);
    }
    assert(rv.take(rv.len() as int) =~= rv);
}

#[verifier::external_type_specification]
#[verifier::external_body]
pub struct ExUuid(Uuid);

/// `Uuid::new_v4`: a random UUID. It comes from a random source, so nothing
/// is claimed of it.
#[verifier::external_body]
fn random_uuid() -> Uuid {
    Uuid::new_v4()
}

/// A lower-case hexadecimal digit.
pub open spec fn lower_hex_digit(c: char) -> bool {
    ('0' <= c && c <= '9') || ('a' <= c && c <= 'f')
}

/// The hyphenated lower-case form of a UUID: 36 characters, hyphens at
/// positions 8, 13, 18 and 23, lower-case hexadecimal digits elsewhere.
pub open spec fn uuid_form(s: Seq<char>) -> bool {
    &&& s.len() == 36
    &&& forall|i: int|
        0 <= i < 36 ==> if i == 8 || i == 13 || i == 18 || i == 23 {
            #[trigger] s[i] == '-'
        } else {
            lower_hex_digit(s[i])
        }
}

/// The `Display` text of a UUID (`ToString::to_string`). The crate's
/// `Display` writes the hyphenated form with lower-case digits, which is all
/// that is claimed: which digits they are depends on the opaque UUID.
#[verifier::external_body]
fn uuid_text(u: &Uuid) -> (r: String)
    ensures
        uuid_form(r@),
{
    u.to_string()
}

/// The communities phase.
pub struct CommunitiesPhase;

impl CommunitiesPhase {
    /// Detects the connected components of the graph (see
    /// `communities_ok`) and adds a Community node, with a random id, for
    /// each of two or more members (see `add_communities`); appends a report
    /// to `progress` before and after.
    pub fn execute(graph: &mut KnowledgeGraph, progress: &mut Vec<PipelineProgress>)
        ensures
            exists|comps: Seq<Seq<Seq<char>>>, uuids: Seq<Seq<char>>|
                communities_ok(old(graph).node_list(), old(graph).rel_list(), comps) && uuids.len() == comps.len()
                    && (forall|c: int| 0 <= c < comps.len() && comps[c].len() >= 2 ==> uuid_form(#[trigger] uuids[c]))
                    && #[trigger] with_communities(old(graph).gview(), comps, uuids) == final(graph).gview(),
            final(progress)@.len() == old(progress)@.len() + 2,
            final(progress)@.take(old(progress)@.len() as int) == old(progress)@,
            is_report(
                final(progress)@[old(progress)@.len() as int],
                PipelinePhase::Communities,
                80,
                "Detecting communities..."@,
                Some(PipelineStats {
                    files_processed: 0,
                    total_files: 0,
                    nodes_created: old(graph).node_list().len() as usize,
                    relationships_created: old(graph).rel_list().len() as usize,
                }),
            ),
            is_report(
                final(progress)@[old(progress)@.len() + 1int],
                PipelinePhase::Communities,
                90,
                "Communities detected"@,
                Some(PipelineStats {
                    files_processed: 0,
                    total_files: 0,
                    nodes_created: final(graph).node_list().len() as usize,
                    relationships_created: final(graph).rel_list().len() as usize,
                }),
            ),
    {
        progress.push(progress_report(
            PipelinePhase::Communities,
            80,
            "Detecting communities...",
            None,
            Some(stats_of(0, 0, graph.node_count(), graph.relationship_count())),
        ));
        let comps = detect_components(graph);
        let mut uuids: Vec<String> = Vec::new();
        let mut c: usize = 0;
        while c < comps.len()
            invariant
                0 <= c <= comps@.len(),
                uuids@.len() == c,
                forall|j: int| 0 <= j < c && comps@[j]@.len() >= 2 ==> uuid_form(#[trigger] uuids@[j]@),
            decreases comps@.len() - c,
        {
            if comps[c].len() >= 2 {
                let u = random_uuid();
                uuids.push(uuid_text(&u));
            } else {
                uuids.push(String::new());
            }
            c = c + 1;
        }
        let ghost g0 = graph.gview();
        add_communities(graph, &comps, &uuids);
        proof {
            let tc = comps@.map_values(|c: Vec<String>| texts(c@));
            assert(with_communities(g0, tc, texts(uuids@)) == graph.gview());
            assert(forall|j: int| 0 <= j < tc.len() && tc[j].len() >= 2 ==> uuid_form(#[trigger] texts(uuids@)[j]));
        }
        progress.push(progress_report(
            PipelinePhase::Communities,
            90,
            "Communities detected",
            None,
            Some(stats_of(0, 0, graph.node_count(), graph.relationship_count())),
        ));
    }
}

/// A list of distinct vertices below `n` has at most `n` entries.
proof fn lemma_distinct_bounded(q: Seq<usize>, n: int)
    requires
        forall|j: int| 0 <= j < q.len() ==> (#[trigger] q[j]) < n,
        forall|i: int, j: int| 0 <= i < q.len() && 0 <= j < q.len() && i != j ==> q[i] != q[j],
        n >= 0,
    ensures
        q.len() <= n,
{
    let m = q.map_values(|x: usize| x as int);
    assert(m.no_duplicates()) by {
        assert forall|i: int, j: int| 0 <= i < m.len() && 0 <= j < m.len() && i != j implies m[i] != m[j] by {
            assert(q[i] != q[j]);
        }
    }
    m.unique_seq_to_set();
    let full = vstd::set_lib::set_int_range(0, n);
    vstd::set_lib::lemma_int_range(0, n);
    assert(m.to_set().subset_of(full)) by {
        assert forall|y: int| m.to_set().contains(y) implies full.contains(y) by {
            let j = choose|j: int| 0 <= j < m.len() && m[j] == y;
            assert(q[j] < n);
        }
    }
    vstd::set_lib::lemma_len_subset(m.to_set(), full);
}


/// A link in front of a walk extends it.
proof fn lemma_id_walk_prepend(rels: Seq<GraphRelationship>, x: Seq<char>, p: Seq<Seq<char>>)
    requires
        id_walk(rels, p),
        p.len() >= 1,
        linked(rels, x, p[0]),
    ensures
        id_walk(rels, seq![x] + p),
    decreases p.len(),
{
    let q = seq![x] + p;
    if p.len() == 1 {
        assert(q.drop_last() =~= seq![x]);
        assert(id_walk(rels, seq![x]));
        assert(q[q.len() - 2] == x && q.last() == p[0]);
        assert(q.len() == 2);
    } else {
        assert(id_walk(rels, p.drop_last()));
        assert(linked(rels, p[p.len() - 2], p.last()));
        assert(p.drop_last()[0] == p[0]);
        lemma_id_walk_prepend(rels, x, p.drop_last());
        assert(q.drop_last() =~= seq![x] + p.drop_last());
        assert(q[q.len() - 2] == p[p.len() - 2]);
        assert(q.last() == p.last());
    }
}

/// Links go both ways.
proof fn lemma_linked_symmetric(rels: Seq<GraphRelationship>, a: Seq<char>, b: Seq<char>)
    requires
        linked(rels, a, b),
    ensures
        linked(rels, b, a),
{
    let r = choose|r: int|
        0 <= r < rels.len() && ((#[trigger] rels[r].source_id@ == a && rels[r].target_id@ == b) || (
        rels[r].source_id@ == b && rels[r].target_id@ == a));
    assert(rels[r].source_id@ == rels[r].source_id@);
}

/// A walk read backwards is a walk.
proof fn lemma_id_walk_reverse(rels: Seq<GraphRelationship>, p: Seq<Seq<char>>)
    requires
        id_walk(rels, p),
    ensures
        id_walk(rels, p.reverse()),
    decreases p.len(),
{
    if p.len() >= 2 {
        let q = p.drop_last();
        lemma_id_walk_reverse(rels, q);
        lemma_linked_symmetric(rels, p[p.len() - 2], p.last());
        assert(q.reverse()[0] == p[p.len() - 2]);
        lemma_id_walk_prepend(rels, p.last(), q.reverse());
        assert(p.reverse() =~= seq![p.last()] + q.reverse());
    } else {
        assert(p.reverse().len() <= 1);
    }
}

/// Two walks that meet make one.
proof fn lemma_id_walk_concat(rels: Seq<GraphRelationship>, p: Seq<Seq<char>>, q: Seq<Seq<char>>)
    requires
        id_walk(rels, p),
        id_walk(rels, q),
        p.len() >= 1,
        q.len() >= 1,
        p.last() == q[0],
    ensures
        id_walk(rels, p + q.drop_first()),
        (p + q.drop_first()).last() == q.last(),
        (p + q.drop_first())[0] == p[0],
    decreases q.len(),
{
    if q.len() == 1 {
        assert(p + q.drop_first() =~= p);
    } else {
        let qd = q.drop_last();
        lemma_id_walk_concat(rels, p, qd);
        let w = p + q.drop_first();
        assert(w.drop_last() =~= p + qd.drop_first());
        assert(w[w.len() - 2] == q[q.len() - 2]);
        assert(w.last() == q.last());
    }
}

/// Connection goes both ways.
pub proof fn lemma_connected_symmetric(rels: Seq<GraphRelationship>, a: Seq<char>, b: Seq<char>)
    requires
        connected(rels, a, b),
    ensures
        connected(rels, b, a),
{
    let p = choose|p: Seq<Seq<char>>| #[trigger] id_walk(rels, p) && p.len() >= 1 && p[0] == a && p.last() == b;
    lemma_id_walk_reverse(rels, p);
    assert(id_walk(rels, p.reverse()) && p.reverse().len() >= 1 && p.reverse()[0] == b && p.reverse().last() == a);
}

/// Connection chains.
pub proof fn lemma_connected_transitive(rels: Seq<GraphRelationship>, a: Seq<char>, b: Seq<char>, c: Seq<char>)
    requires
        connected(rels, a, b),
        connected(rels, b, c),
    ensures
        connected(rels, a, c),
{
    let p = choose|p: Seq<Seq<char>>| #[trigger] id_walk(rels, p) && p.len() >= 1 && p[0] == a && p.last() == b;
    let q = choose|q: Seq<Seq<char>>| #[trigger] id_walk(rels, q) && q.len() >= 1 && q[0] == b && q.last() == c;
    lemma_id_walk_concat(rels, p, q);
    let w = p + q.drop_first();
    assert(id_walk(rels, w) && w.len() >= 1 && w[0] == a && w.last() == c);
}

/// The communities are exactly the connected groups: any two members of one
/// community are connected, and members of different communities are not.
pub proof fn law_communities_are_connected_groups(
    nodes: Seq<GraphNode>,
    rels: Seq<GraphRelationship>,
    comps: Seq<Seq<Seq<char>>>,
)
    requires
        communities_ok(nodes, rels, comps),
    ensures
        forall|c: int, i: int, j: int| 0 <= c < comps.len() && 0 <= i < comps[c].len() && 0 <= j < comps[c].len()
            ==> connected(rels, #[trigger] comps[c][i], #[trigger] comps[c][j]),
        forall|c: int, d: int, i: int, j: int|
            0 <= c < comps.len() && 0 <= d < comps.len() && c != d && 0 <= i < comps[c].len() && 0 <= j < comps[d].len()
            ==> !connected(rels, #[trigger] comps[c][i], #[trigger] comps[d][j]),
{
    assert forall|c: int, i: int, j: int| 0 <= c < comps.len() && 0 <= i < comps[c].len() && 0 <= j < comps[c].len()
        implies connected(rels, #[trigger] comps[c][i], #[trigger] comps[c][j]) by {
        assert(connected(rels, comps[c][0], comps[c][i]));
        assert(connected(rels, comps[c][0], comps[c][j]));
        lemma_connected_symmetric(rels, comps[c][0], comps[c][i]);
        lemma_connected_transitive(rels, comps[c][i], comps[c][0], comps[c][j]);
    }
    assert forall|c: int, d: int, i: int, j: int|
        0 <= c < comps.len() && 0 <= d < comps.len() && c != d && 0 <= i < comps[c].len() && 0 <= j < comps[d].len()
        implies !connected(rels, #[trigger] comps[c][i], #[trigger] comps[d][j]) by {
        if connected(rels, comps[c][i], comps[d][j]) {
            assert(connected(rels, comps[c][0], comps[c][i]));
            lemma_connected_transitive(rels, comps[c][0], comps[c][i], comps[d][j]);
            assert(comps[c].contains(comps[d][j]));
            let k = choose|k: int| 0 <= k < comps[c].len() && comps[c][k] == comps[d][j];
            assert(comps[c][k] != comps[d][j]);
        }
    }
}

/// `partof:{community id}:{member}`.
pub open spec fn partof_rel_id(cid: Seq<char>, m: Seq<char>) -> Seq<char> {
    "partof:"@ + cid + ":"@ + m
}

/// Whether `r` links a member of a component of two or more members to the
/// Community node of that same component: it is a PART_OF_COMMUNITY
/// relationship from member `j` of component `c` to `community:{uuids[c]}`.
pub open spec fn links_member(r: RelView, comps: Seq<Seq<Seq<char>>>, uuids: Seq<Seq<char>>) -> bool {
    exists|c: int, j: int| {
        &&& 0 <= c < comps.len()
        &&& comps[c].len() >= 2
        &&& 0 <= j < comps[c].len()
        &&& r.kind == RelationshipKind::PartOfCommunity
        &&& r.source_id == #[trigger] comps[c][j]
        &&& r.target_id == ("community:"@ + uuids[c])
        &&& r.id == partof_rel_id(("community:"@ + uuids[c]), comps[c][j])
    }
}

/// Whether some relationship value of `rs` has the id `id`.
pub open spec fn id_listed(rs: Seq<RelView>, id: Seq<char>) -> bool {
    exists|k: int| 0 <= k < rs.len() && #[trigger] rs[k].id == id
}

/// Whether some node of `g` has the id `id`.
pub open spec fn node_id_present(g: GraphView, id: Seq<char>) -> bool {
    exists|i: int| 0 <= i < g.nodes.len() && #[trigger] g.nodes[i].id == id
}

/// Every membership relationship links a member to its own community, and
/// every member of a component of two or more gets one.
proof fn lemma_community_rels(comps: Seq<Seq<Seq<char>>>, uuids: Seq<Seq<char>>)
    ensures
        forall|k: int| 0 <= k < community_rels(comps, uuids).len()
            ==> links_member(#[trigger] community_rels(comps, uuids)[k], comps, uuids),
        forall|c: int, j: int| 0 <= c < comps.len() && comps[c].len() >= 2 && 0 <= j < comps[c].len()
            ==> id_listed(community_rels(comps, uuids), partof_rel_id(("community:"@ + uuids[c]), #[trigger] comps[c][j])),
    decreases comps.len(),
{
    if comps.len() > 0 {
        let front = comps.drop_last();
        lemma_community_rels(front, uuids);
        let rest = community_rels(front, uuids);
        let rs = community_rels(comps, uuids);
        let last = comps.len() - 1;
        let cid = community_id(uuids[last]);
        assert forall|k: int| 0 <= k < rs.len() implies links_member(#[trigger] rs[k], comps, uuids) by {
            if k < rest.len() {
                assert(rs[k] == rest[k]);
                assert(links_member(rest[k], front, uuids));
                let (c, j) = choose|c: int, j: int| {
                    &&& 0 <= c < front.len()
                    &&& front[c].len() >= 2
                    &&& 0 <= j < front[c].len()
                    &&& rest[k].kind == RelationshipKind::PartOfCommunity
                    &&& rest[k].source_id == #[trigger] front[c][j]
                    &&& rest[k].target_id == ("community:"@ + uuids[c])
                    &&& rest[k].id == partof_rel_id(("community:"@ + uuids[c]), front[c][j])
                };
                assert(comps[c] == front[c]);
                assert(comps[c][j] == front[c][j]);
            } else {
                let j = k - rest.len();
                assert(rs == rest + member_rels(cid, comps.last()));
                assert(rs[k] == member_rels(cid, comps.last())[j]);
                assert(comps[last][j] == comps.last()[j]);
            }
        }
        assert forall|c: int, j: int| 0 <= c < comps.len() && comps[c].len() >= 2 && 0 <= j < comps[c].len()
            implies id_listed(rs, partof_rel_id(("community:"@ + uuids[c]), #[trigger] comps[c][j])) by {
            if c < front.len() {
                assert(comps[c] == front[c]);
                assert(front[c][j] == comps[c][j]);
                assert(id_listed(rest, partof_rel_id(("community:"@ + uuids[c]), front[c][j])));
                let k = choose|k: int| 0 <= k < rest.len()
                    && (#[trigger] rest[k]).id == partof_rel_id(("community:"@ + uuids[c]), front[c][j]);
                assert(rs[k] == rest[k]);
            } else {
                assert(rs == rest + member_rels(cid, comps.last()));
                let k = rest.len() + j;
                assert(rs[k] == member_rels(cid, comps.last())[j]);
                assert(rs[k].id == partof_rel_id(("community:"@ + uuids[c]), comps[c][j]));
            }
        }
    }
}

/// Adding node values keeps the relationships and the nodes already there,
/// and the id of each node added is then present.
proof fn lemma_with_nodes(g: GraphView, ns: Seq<NodeView>)
    ensures
        with_nodes(g, ns).rels == g.rels,
        g.nodes.len() <= with_nodes(g, ns).nodes.len(),
        forall|i: int| 0 <= i < g.nodes.len() ==> #[trigger] with_nodes(g, ns).nodes[i] == g.nodes[i],
        forall|k: int| 0 <= k < ns.len() ==> node_id_present(with_nodes(g, ns), #[trigger] ns[k].id),
    decreases ns.len(),
{
    if ns.len() > 0 {
        let front = ns.drop_last();
        lemma_with_nodes(g, front);
        let h0 = with_nodes(g, front);
        let h = with_nodes(g, ns);
        if exists|i: int| 0 <= i < h0.nodes.len() && #[trigger] h0.nodes[i].id == ns.last().id {
            assert(h == h0);
        } else {
            assert(h.nodes == h0.nodes.push(ns.last()));
            assert(h.nodes[h0.nodes.len() as int].id == ns.last().id);
        }
        assert forall|i: int| 0 <= i < g.nodes.len() implies #[trigger] h.nodes[i] == g.nodes[i] by {
            assert(h0.nodes[i] == g.nodes[i]);
        }
        assert forall|k: int| 0 <= k < ns.len() implies node_id_present(h, #[trigger] ns[k].id) by {
            if k < front.len() {
                assert(ns[k] == front[k]);
                assert(node_id_present(h0, front[k].id));
                let i = choose|i: int| 0 <= i < h0.nodes.len() && #[trigger] h0.nodes[i].id == front[k].id;
                assert(h.nodes[i] == h0.nodes[i]);
            } else {
                assert(ns[k] == ns.last());
            }
        }
    }
}

/// Every component of two or more members has its Community node among
/// `community_nodes`.
proof fn lemma_community_nodes(comps: Seq<Seq<Seq<char>>>, uuids: Seq<Seq<char>>)
    ensures
        forall|c: int| 0 <= c < comps.len() && (#[trigger] comps[c]).len() >= 2
            ==> exists|k: int| 0 <= k < community_nodes(comps, uuids).len()
                && (#[trigger] community_nodes(comps, uuids)[k]).id == ("community:"@ + uuids[c]),
    decreases comps.len(),
{
    if comps.len() > 0 {
        let front = comps.drop_last();
        lemma_community_nodes(front, uuids);
        let rest = community_nodes(front, uuids);
        let ns = community_nodes(comps, uuids);
        assert forall|c: int| 0 <= c < comps.len() && (#[trigger] comps[c]).len() >= 2
            implies exists|k: int| 0 <= k < ns.len() && (#[trigger] ns[k]).id == ("community:"@ + uuids[c]) by {
            if c < front.len() {
                assert(comps[c] == front[c]);
                let k = choose|k: int| 0 <= k < rest.len() && (#[trigger] rest[k]).id == ("community:"@ + uuids[c]);
                assert(ns[k] == rest[k]);
            } else {
                assert(ns[rest.len() as int].id == ("community:"@ + uuids[c]));
            }
        }
    }
}

/// Law: adding the communities links each member to the Community node of
/// its own component and to no other. Every relationship that comes in is a
/// PART_OF_COMMUNITY link from member `j` of a component `c` of two or more
/// members to `community:{uuids[c]}`; every member of such a component has
/// its link `partof:community:{uuids[c]}:{member}`, and every such component
/// its Community node; nodes and relationships already there are kept.
pub proof fn law_members_link_to_their_community(
    g: GraphView,
    comps: Seq<Seq<Seq<char>>>,
    uuids: Seq<Seq<char>>,
    h: GraphView,
)
    requires
        uuids.len() == comps.len(),
        h == with_communities(g, comps, uuids),
    ensures
        g.nodes.len() <= h.nodes.len(),
        forall|i: int| 0 <= i < g.nodes.len() ==> #[trigger] h.nodes[i] == g.nodes[i],
        g.rels.len() <= h.rels.len(),
        forall|i: int| 0 <= i < g.rels.len() ==> #[trigger] h.rels[i] == g.rels[i],
        forall|i: int| g.rels.len() <= i < h.rels.len() ==> links_member(#[trigger] h.rels[i], comps, uuids),
        forall|c: int, j: int| 0 <= c < comps.len() && comps[c].len() >= 2 && 0 <= j < comps[c].len()
            ==> rel_id_present(h, partof_rel_id(("community:"@ + uuids[c]), #[trigger] comps[c][j])),
        forall|c: int| 0 <= c < comps.len() && (#[trigger] comps[c]).len() >= 2
            ==> node_id_present(h, ("community:"@ + uuids[c])),
{
    let ns = community_nodes(comps, uuids);
    let rs = community_rels(comps, uuids);
    let m = with_nodes(g, ns);
    lemma_with_nodes(g, ns);
    lemma_with_rels(m, rs);
    lemma_community_rels(comps, uuids);
    lemma_community_nodes(comps, uuids);
    assert(h == with_rels(m, rs));
    assert forall|i: int| 0 <= i < g.nodes.len() implies #[trigger] h.nodes[i] == g.nodes[i] by {
        assert(m.nodes[i] == g.nodes[i]);
    }
    assert forall|i: int| 0 <= i < g.rels.len() implies #[trigger] h.rels[i] == g.rels[i] by {
        assert(h.rels[i] == m.rels[i]);
    }
    assert forall|i: int| g.rels.len() <= i < h.rels.len() implies links_member(#[trigger] h.rels[i], comps, uuids) by {
        let k = choose|k: int| 0 <= k < rs.len() && #[trigger] with_rels(m, rs).rels[i] == rs[k];
        assert(links_member(rs[k], comps, uuids));
    }
    assert forall|c: int, j: int| 0 <= c < comps.len() && comps[c].len() >= 2 && 0 <= j < comps[c].len()
        implies rel_id_present(h, partof_rel_id(("community:"@ + uuids[c]), #[trigger] comps[c][j])) by {
        assert(id_listed(rs, partof_rel_id(("community:"@ + uuids[c]), comps[c][j])));
        let k = choose|k: int| 0 <= k < rs.len()
            && (#[trigger] rs[k]).id == partof_rel_id(("community:"@ + uuids[c]), comps[c][j]);
        assert(rel_id_present(h, rs[k].id));
    }
    assert forall|c: int| 0 <= c < comps.len() && (#[trigger] comps[c]).len() >= 2
        implies node_id_present(h, ("community:"@ + uuids[c])) by {
        let k = choose|k: int| 0 <= k < ns.len() && (#[trigger] ns[k]).id == ("community:"@ + uuids[c]);
        assert(node_id_present(m, ns[k].id));
        let i = choose|i: int| 0 <= i < m.nodes.len() && #[trigger] m.nodes[i].id == ns[k].id;
        assert(h.nodes[i] == m.nodes[i]);
    }
}

} // verus!
