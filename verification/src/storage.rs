//! Where an index is stored, the registry of indexed repositories, and the
//! search for the git root of a working directory. Reading and writing the
//! files is the caller's part; this module decides what goes in them.

use vstd::prelude::*;
use crate::graph::{KnowledgeGraph, node_added, rel_added};
use crate::paths::{is_dir_on_disk, join, parent_of, path_join, path_parent};
use crate::text::{opt_text, owned, same_text};
use crate::time::{chrono_now, timestamp_text};
use crate::types::{GraphNode, GraphRelationship, RepoMeta, RepoStats};

verus! {

/// The places of an index inside a repository.
#[derive(Debug, Clone)]
pub struct StoragePaths {
    /// `<repo>/.gitnexus`
    pub gitnexus_dir: String,
    /// `<repo>/.gitnexus/lbug`, where the graph is written.
    pub lbug_dir: String,
    /// `<repo>/.gitnexus/meta.json`
    pub meta_path: String,
}

/// The index directory of a repository.
pub open spec fn index_dir(repo: Seq<char>) -> Seq<char> {
    path_join(repo, ".gitnexus"@)
}

/// The storage places of the repository at `repo_path`.
pub fn get_storage_paths(repo_path: &str) -> (r: StoragePaths)
    ensures
        r.gitnexus_dir@ == index_dir(repo_path@),
        r.lbug_dir@ == path_join(index_dir(repo_path@), "lbug"@),
        r.meta_path@ == path_join(index_dir(repo_path@), "meta.json"@),
{
    let gitnexus_dir = join(repo_path, ".gitnexus");
    let lbug_dir = join(gitnexus_dir.as_str(), "lbug");
    let meta_path = join(gitnexus_dir.as_str(), "meta.json");
    StoragePaths { gitnexus_dir, lbug_dir, meta_path }
}

/// `home::home_dir`, as a string. It reads the environment, so nothing is
/// claimed of the answer.
#[verifier::external_body]
fn home_directory() -> Option<String> {
    home::home_dir().map(|h| h.to_string_lossy().into_owned())
}

/// The registry file under a home directory.
pub open spec fn registry_path_of(home: Seq<char>) -> Seq<char> {
    path_join(path_join(home, ".gitnexus"@), "registry.json"@)
}

/// The registry file under the given home directory.
pub fn registry_path_in(home: &str) -> (r: String)
    ensures
        r@ == registry_path_of(home@),
{
    let dir = join(home, ".gitnexus");
    join(dir.as_str(), "registry.json")
}

/// The registry file for what looking up the home directory gave: the
/// file under it where it is known, nothing where it is not.
pub open spec fn registry_for(home: Option<Seq<char>>) -> Option<Seq<char>> {
    match home {
        Some(h) => Some(registry_path_of(h)),
        None => None,
    }
}

/// The registry file for what looking up the home directory gave (see
/// `registry_for`).
pub fn registry_path_for(home: Option<String>) -> (r: Option<String>)
    ensures
        opt_text(r) == registry_for(opt_text(home)),
{
    match home {
        Some(h) => Some(registry_path_in(h.as_str())),
        None => None,
    }
}

/// The global registry file, `~/.gitnexus/registry.json`, when the home
/// directory is known (see `registry_path_for`); which home directory the
/// environment gives is not known here.
pub fn get_global_registry_path() -> (r: Option<String>)
    ensures
        exists|home: Option<Seq<char>>| opt_text(r) == #[trigger] registry_for(home),
{
    let home = home_directory();
    let ghost hv: Option<Seq<char>> = opt_text(home);
    let r = registry_path_for(home);
    proof {
        assert(opt_text(r) == registry_for(hv));
    }
    r
}

/// The path that `n` steps up from `p` reach, if there are that many.
pub open spec fn nth_parent(p: Seq<char>, n: nat) -> Option<Seq<char>>
    decreases n,
{
    if n == 0 {
        Some(p)
    } else {
        match nth_parent(p, (n - 1) as nat) {
            Some(q) => path_parent(q),
            None => None,
        }
    }
}

/// Whether `n` steps up from `p` reach a path that has no parent: the walk
/// upwards from `p` ends there.
pub open spec fn top_reached(p: Seq<char>, n: nat) -> bool {
    match nth_parent(p, n) {
        Some(x) => path_parent(x) is None,
        None => false,
    }
}

/// The `.git` entry of a directory: `<path>/.git`.
pub fn git_dir_of(path: &str) -> (r: String)
    ensures
        r@ == path_join(path@, ".git"@),
{
    join(path, ".git")
}

/// The first position at which `p` holds `true`.
pub open spec fn first_true(p: Seq<bool>) -> Option<nat>
    decreases p.len(),
{
    if p.len() == 0 {
        None
    } else {
        match first_true(p.drop_last()) {
            Some(i) => Some(i),
            None => if p.last() { Some((p.len() - 1) as nat) } else { None },
        }
    }
}

/// `first_true` is the first `true`, if there is one.
pub proof fn lemma_first_true(p: Seq<bool>)
    ensures
        match first_true(p) {
            Some(i) => i < p.len() && p[i as int] && forall|j: int| 0 <= j < i ==> !p[j],
            None => forall|j: int| 0 <= j < p.len() ==> !p[j],
        },
    decreases p.len(),
{
    if p.len() > 0 {
        let q = p.drop_last();
        lemma_first_true(q);
        assert forall|j: int| 0 <= j < q.len() implies q[j] == p[j] by {}
        match first_true(q) {
            Some(i) => {
                assert(p[i as int] == q[i as int]);
            },
            None => {},
        }
    }
}

/// Given, for `start` and each of its ancestors nearest first, whether it
/// holds a `.git` directory, the position of the git root: the first that
/// does.
pub fn first_git_root(has_git: &Vec<bool>) -> (r: Option<usize>)
    ensures
        match r {
            Some(i) => first_true(has_git@) == Some(i as nat),
            None => first_true(has_git@) is None,
        },
        r matches Some(i) ==> i < has_git@.len() && has_git@[i as int] && forall|j: int| 0 <= j < i ==> !has_git@[j],
        r is None ==> forall|j: int| 0 <= j < has_git@.len() ==> !has_git@[j],
{
    proof {
        lemma_first_true(has_git@);
    }
    let mut i: usize = 0;
    while i < has_git.len()
        invariant
            0 <= i <= has_git@.len(),
            first_true(has_git@.take(i as int)) is None,
        decreases has_git@.len() - i,
    {
        proof {
            assert(has_git@.take(i + 1).drop_last() =~= has_git@.take(i as int));
        }
        if has_git[i] {
            proof {
                assert(first_true(has_git@.take(i + 1)) == Some(i as nat));
                lemma_first_true_prefix(has_git@, (i + 1) as int);
                lemma_first_true(has_git@);
            }
            return Some(i);
        }
        i = i + 1;
    }
    proof {
        assert(has_git@.take(has_git@.len() as int) =~= has_git@);
        lemma_first_true(has_git@);
    }
    None
}

/// A first `true` within a prefix is the first `true` of the whole.
proof fn lemma_first_true_prefix(p: Seq<bool>, n: int)
    requires
        0 <= n <= p.len(),
        first_true(p.take(n)) is Some,
    ensures
        first_true(p) == first_true(p.take(n)),
    decreases p.len() - n,
{
    if n < p.len() {
        assert(p.take(n + 1).drop_last() =~= p.take(n));
        lemma_first_true_prefix(p, n + 1);
    } else {
        assert(p.take(n) =~= p);
    }
}

/// `a` lists `start` and all its ancestors, nearest first: each is the
/// parent of the one before, and the last has no parent.
pub open spec fn ancestry(start: Seq<char>, a: Seq<Seq<char>>) -> bool {
    &&& a.len() >= 1
    &&& forall|j: int| 0 <= j < a.len() ==> nth_parent(start, j as nat) == Some(#[trigger] a[j])
    &&& top_reached(start, (a.len() - 1) as nat)
}

/// The ancestor of `a` that the probe answers `probes` pick: the first for
/// which the probe said `true`.
pub open spec fn picked_root(a: Seq<Seq<char>>, probes: Seq<bool>) -> Option<Seq<char>> {
    match first_true(probes) {
        Some(i) => Some(a[i as int]),
        None => None,
    }
}

/// The git root of `start`: the nearest of `start` and its ancestors that
/// holds a `.git` directory (`<dir>/.git`, see `git_dir_of`). Every ancestor
/// is probed on disk, and the answer is decided from the probes by
/// `first_git_root`; what the disk answers is not known here.
pub fn get_git_root(start: &str) -> (r: Option<String>)
    ensures
        exists|a: Seq<Seq<char>>, probes: Seq<bool>| #![trigger ancestry(start@, a), first_true(probes)] {
            &&& ancestry(start@, a)
            &&& probes.len() == a.len()
            &&& opt_text(r) == picked_root(a, probes)
        },
        r matches Some(x) ==> exists|n: nat| nth_parent(start@, n) == Some(x@),
{
    let mut chain: Vec<String> = Vec::new();
    let mut current = owned(start);
    loop
        invariant_except_break
            chain@.len() >= 0,
            forall|j: int| 0 <= j < chain@.len() ==> nth_parent(start@, j as nat) == Some(#[trigger] chain@[j]@),
            nth_parent(start@, chain@.len() as nat) == Some(current@),
        ensures
            chain@.len() >= 1,
            forall|j: int| 0 <= j < chain@.len() ==> nth_parent(start@, j as nat) == Some(#[trigger] chain@[j]@),
            top_reached(start@, (chain@.len() - 1) as nat),
        decreases current@.len(),
    {
        let up = parent_of(current.as_str());
        let ghost n = chain@.len() as nat;
        chain.push(current);
        match up {
            Some(u) => {
                proof {
                    assert(nth_parent(start@, n + 1) == Some(u@));
                }
                current = u;
            },
            None => {
                proof {
                    assert(chain@[n as int]@ == nth_parent(start@, n)->0);
                    assert(top_reached(start@, n));
                }
                break;
            },
        }
    }
    let mut probes: Vec<bool> = Vec::new();
    let mut j: usize = 0;
    while j < chain.len()
        invariant
            0 <= j <= chain@.len(),
            probes@.len() == j,
        decreases chain@.len() - j,
    {
        let probe = git_dir_of(chain[j].as_str());
        probes.push(is_dir_on_disk(probe.as_str()));
        j = j + 1;
    }
    let ghost a = chain@.map_values(|s: String| s@);
    proof {
        assert(ancestry(start@, a));
        assert(first_true(probes@) == first_true(probes@));
    }
    match first_git_root(&probes) {
        Some(i) => {
            let x = chain[i].clone();
            proof {
                assert(nth_parent(start@, i as nat) == Some(x@));
            }
            Some(x)
        },
        None => None,
    }
}

/// Whether `<path>/.git` (see `git_dir_of`) is a directory on disk. The
/// answer comes from the disk, so nothing is claimed of it.
pub fn has_git_dir(path: &str) -> bool {
    let probe = git_dir_of(path);
    is_dir_on_disk(probe.as_str())
}

/// The registry entry of a freshly indexed repository: its index directory,
/// its path, the current time, no commit, and the given sizes with no
/// processes.
pub fn make_repo_meta(name: &str, repo_path: &str, nodes: usize, edges: usize, files: usize, communities: usize) -> (r: RepoMeta)
    ensures
        r.name@ == name@,
        r.path@ == index_dir(repo_path@),
        r.repo_path@ == repo_path@,
        exists|secs: nat| secs <= u64::MAX && #[trigger] timestamp_text(secs, r.indexed_at@),
        r.last_commit is None,
        r.stats == (RepoStats { files, nodes, edges, communities, processes: 0 }),
{
    let gitnexus_dir = join(repo_path, ".gitnexus");
    let indexed_at = chrono_now();
    let ghost secs = choose|secs: nat| secs <= u64::MAX && #[trigger] timestamp_text(secs, indexed_at@);
    let r = RepoMeta {
        name: owned(name),
        path: gitnexus_dir,
        repo_path: owned(repo_path),
        indexed_at,
        last_commit: None,
        stats: RepoStats { files, nodes, edges, communities, processes: 0 },
    };
    assert(timestamp_text(secs, r.indexed_at@));
    r
}

/// Whether an entry is named otherwise than `name`.
pub open spec fn not_named(name: Seq<char>) -> spec_fn(RepoMeta) -> bool {
    |m: RepoMeta| m.name@ != name
}

/// The entries of `repos` whose name is not `name`, in order.
pub open spec fn others(repos: Seq<RepoMeta>, name: Seq<char>) -> Seq<RepoMeta> {
    repos.filter(not_named(name))
}

/// `repos` without the entries named `name`, in order.
pub fn without_repo(repos: Vec<RepoMeta>, name: &str) -> (r: Vec<RepoMeta>)
    ensures
        r@ == others(repos@, name@),
{
    let ghost p = not_named(name@);
    let ghost s = repos@;
    let mut r: Vec<RepoMeta> = Vec::new();
    proof {
        crate::graph::lemma_filter_all(s, p);
    }
    for m in it: repos.into_iter()
        invariant
            it.seq() == s,
            p == not_named(name@),
            r@ == s.take(it.index() as int).filter(p),
    {
        proof {
            crate::graph::lemma_filter_step(s, p, it.index() as int);
        }
        if !same_text(m.name.as_str(), name) {
            r.push(m);
        }
    }
    proof {
        crate::graph::lemma_filter_all(s, p);
    }
    r
}

/// The registry after (re-)registering `meta`: earlier entries of the same
/// name leave, and `meta` comes last.
pub fn with_registered(repos: Vec<RepoMeta>, meta: &RepoMeta) -> (r: Vec<RepoMeta>)
    ensures
        r@ == others(repos@, meta.name@).push(*meta),
{
    let mut r = without_repo(repos, meta.name.as_str());
    r.push(meta.duplicate());
    r
}

/// The first entry of `repos` named `name`.
pub fn find_repo<'a>(repos: &'a Vec<RepoMeta>, name: &str) -> (r: Option<&'a RepoMeta>)
    ensures
        match r {
            Some(m) => exists|i: int| 0 <= i < repos@.len() && repos@[i] == *m && m.name@ == name@
                && forall|j: int| 0 <= j < i ==> (#[trigger] repos@[j]).name@ != name@,
            None => forall|j: int| 0 <= j < repos@.len() ==> (#[trigger] repos@[j]).name@ != name@,
        },
{
    let mut i: usize = 0;
    while i < repos.len()
        invariant
            0 <= i <= repos@.len(),
            forall|j: int| 0 <= j < i ==> (#[trigger] repos@[j]).name@ != name@,
        decreases repos@.len() - i,
    {
        if same_text(repos[i].name.as_str(), name) {
            return Some(&repos[i]);
        }
        i = i + 1;
    }
    None
}

/// The node list after adding each of `ns` in turn.
pub open spec fn nodes_added(s: Seq<GraphNode>, ns: Seq<GraphNode>) -> Seq<GraphNode>
    decreases ns.len(),
{
    if ns.len() == 0 {
        s
    } else {
        node_added(nodes_added(s, ns.drop_last()), ns.last())
    }
}

/// The relationship list after adding each of `rs` in turn.
pub open spec fn rels_added(s: Seq<GraphRelationship>, rs: Seq<GraphRelationship>) -> Seq<GraphRelationship>
    decreases rs.len(),
{
    if rs.len() == 0 {
        s
    } else {
        rel_added(rels_added(s, rs.drop_last()), rs.last())
    }
}

/// The graph that stored node and relationship lists describe: each added
/// in turn to an empty graph, so that the first of a repeated id stays.
pub fn graph_from_lists(nodes: Vec<GraphNode>, rels: Vec<GraphRelationship>) -> (g: KnowledgeGraph)
    ensures
        g.node_list() == nodes_added(Seq::empty(), nodes@),
        g.rel_list() == rels_added(Seq::empty(), rels@),
{
    let mut g = KnowledgeGraph::new();
    let ghost ns = nodes@;
    let ghost rs = rels@;
    for n in it: nodes.into_iter()
        invariant
            it.seq() == ns,
            g.node_list() == nodes_added(Seq::empty(), ns.take(it.index() as int)),
            g.rel_list() == Seq::<GraphRelationship>::empty(),
    {
        proof {
            assert(ns.take(it.index() + 1).drop_last() =~= ns.take(it.index() as int));
        }
        g.add_node(n);
    }
    proof {
        assert(ns.take(ns.len() as int) =~= ns);
    }
    for x in it: rels.into_iter()
        invariant
            it.seq() == rs,
            g.node_list() == nodes_added(Seq::empty(), ns),
            g.rel_list() == rels_added(Seq::empty(), rs.take(it.index() as int)),
    {
        proof {
            assert(rs.take(it.index() + 1).drop_last() =~= rs.take(it.index() as int));
        }
        g.add_relationship(x);
    }
    proof {
        assert(rs.take(rs.len() as int) =~= rs);
    }
    g
}


/// No entry of `others(repos, name)` is named `name`, and every entry of
/// `repos` with another name is among them.
proof fn lemma_others(repos: Seq<RepoMeta>, name: Seq<char>)
    ensures
        forall|i: int| 0 <= i < others(repos, name).len() ==> (#[trigger] others(repos, name)[i]).name@ != name,
        forall|m: RepoMeta| repos.contains(m) && m.name@ != name ==> #[trigger] others(repos, name).contains(m),
        forall|m: RepoMeta| #[trigger] others(repos, name).contains(m) ==> repos.contains(m),
{
    let p = not_named(name);
    repos.filter_lemma(p);
    assert forall|m: RepoMeta| repos.contains(m) && m.name@ != name implies #[trigger] others(repos, name).contains(m) by {
        let k = choose|k: int| 0 <= k < repos.len() && repos[k] == m;
        assert(p(repos[k]));
    }
    assert forall|m: RepoMeta| #[trigger] others(repos, name).contains(m) implies repos.contains(m) by {
        repos.lemma_filter_contains_rev(p, m);
    }
}

/// Filtering out a name twice is filtering it out once.
proof fn lemma_others_twice(repos: Seq<RepoMeta>, name: Seq<char>)
    ensures
        others(others(repos, name), name) == others(repos, name),
    decreases repos.len(),
{
    reveal(Seq::filter);
    if repos.len() > 0 {
        lemma_others_twice(repos.drop_last(), name);
        let p = not_named(name);
        let f = repos.drop_last().filter(p);
        if p(repos.last()) {
            assert(f.push(repos.last()).drop_last() =~= f);
        }
    }
}

/// After a repository is registered, its entry is the only one of its name
/// and comes last; every entry of another name stays, and nothing else
/// enters.
pub proof fn law_register(repos: Seq<RepoMeta>, meta: RepoMeta)
    ensures
        ({
            let r = others(repos, meta.name@).push(meta);
            &&& r.last() == meta
            &&& forall|i: int| 0 <= i < r.len() && (#[trigger] r[i]).name@ == meta.name@ ==> i == r.len() - 1
            &&& forall|m: RepoMeta| repos.contains(m) && m.name@ != meta.name@ ==> #[trigger] r.contains(m)
            &&& forall|m: RepoMeta| #[trigger] r.contains(m) ==> m == meta || repos.contains(m)
        }),
{
    lemma_others(repos, meta.name@);
    let o = others(repos, meta.name@);
    let r = o.push(meta);
    assert forall|i: int| 0 <= i < r.len() && (#[trigger] r[i]).name@ == meta.name@ implies i == r.len() - 1 by {
        if i < o.len() {
            assert(r[i] == o[i]);
        }
    }
    assert forall|m: RepoMeta| repos.contains(m) && m.name@ != meta.name@ implies #[trigger] r.contains(m) by {
        assert(o.contains(m));
        let k = choose|k: int| 0 <= k < o.len() && o[k] == m;
        assert(r[k] == m);
    }
    assert forall|m: RepoMeta| #[trigger] r.contains(m) implies m == meta || repos.contains(m) by {
        let k = choose|k: int| 0 <= k < r.len() && r[k] == m;
        if k < o.len() {
            assert(o.contains(o[k]));
        }
    }
}

/// Registering the same entry twice gives the registry that registering it
/// once gives.
pub proof fn law_register_twice(repos: Seq<RepoMeta>, meta: RepoMeta)
    ensures
        others(others(repos, meta.name@).push(meta), meta.name@).push(meta) == others(repos, meta.name@).push(meta),
{
    reveal(Seq::filter);
    let o = others(repos, meta.name@);
    assert(o.push(meta).drop_last() =~= o);
    lemma_others_twice(repos, meta.name@);
}

/// After a repository is unregistered no entry carries its name, every
/// entry of another name stays, and unregistering it again changes nothing.
pub proof fn law_unregister(repos: Seq<RepoMeta>, name: Seq<char>)
    ensures
        forall|i: int| 0 <= i < others(repos, name).len() ==> (#[trigger] others(repos, name)[i]).name@ != name,
        forall|m: RepoMeta| repos.contains(m) && m.name@ != name ==> #[trigger] others(repos, name).contains(m),
        others(others(repos, name), name) == others(repos, name),
{
    lemma_others(repos, name);
    lemma_others_twice(repos, name);
}


/// Loading back the node and relationship lists of a graph, which carry
/// each id once, gives the same lists: a stored graph reloads unchanged.
#[verifier::spinoff_prover]
pub proof fn law_reload(nodes: Seq<GraphNode>, rels: Seq<GraphRelationship>)
    requires
        crate::graph::distinct_node_ids(nodes),
        crate::graph::distinct_rel_ids(rels),
    ensures
        nodes_added(Seq::empty(), nodes) == nodes,
        rels_added(Seq::empty(), rels) == rels,
    decreases nodes.len() + rels.len(),
{
    if nodes.len() > 0 {
        let front = nodes.drop_last();
        law_reload(front, Seq::empty());
        if crate::graph::has_node_id(front, nodes.last().id@) {
            let i = choose|i: int| 0 <= i < front.len() && #[trigger] front[i].id@ == nodes.last().id@;
            assert(nodes[i].id@ == nodes[nodes.len() - 1].id@);
        }
        assert(front.push(nodes.last()) =~= nodes);
    }
    if rels.len() > 0 {
        let front = rels.drop_last();
        law_reload(Seq::empty(), front);
        if crate::graph::has_rel_id(front, rels.last().id@) {
            let i = choose|i: int| 0 <= i < front.len() && #[trigger] front[i].id@ == rels.last().id@;
            assert(rels[i].id@ == rels[rels.len() - 1].id@);
        }
        assert(front.push(rels.last()) =~= rels);
    }
}

} // verus!
