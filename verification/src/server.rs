//! The HTTP API's rules: which origins may call it, the parameters of its
//! routes, how a symbol search matches, and the table of analysis jobs.
//! Listening, routing and streaming are the caller's part.

use vstd::prelude::*;
use vstd::utf8::encode_utf8;
use crate::graph::{KnowledgeGraph, refs_to};
use crate::grep::{find_bytes, first_match, lemma_first_match, occurs_at};
use crate::search::{lowercase, to_lower};
use crate::types::{GraphNode, PipelineProgress};

verus! {

/// Whether `s` begins with `p`.
pub open spec fn has_prefix(s: Seq<u8>, p: Seq<u8>) -> bool {
    p.len() <= s.len() && s.take(p.len() as int) == p
}

/// Whether `s` begins with `p`.
fn starts_with_bytes(s: &[u8], p: &[u8]) -> (r: bool)
    ensures
        r == has_prefix(s@, p@),
{
    if p.len() > s.len() {
        return false;
    }
    let mut i: usize = 0;
    while i < p.len()
        invariant
            p@.len() <= s@.len(),
            0 <= i <= p@.len(),
            forall|k: int| 0 <= k < i ==> s@[k] == p@[k],
        decreases p@.len() - i,
    {
        if s[i] != p[i] {
            assert(s@.take(p@.len() as int)[i as int] != p@[i as int]);
            return false;
        }
        i = i + 1;
    }
    assert(s@.take(p@.len() as int) =~= p@);
    true
}

/// An origin on a private network: `http://192.168.` or `http://10.`.
pub open spec fn local_network_origin(o: Seq<u8>) -> bool {
    has_prefix(o, encode_utf8("http://192.168."@)) || has_prefix(o, encode_utf8("http://10."@))
}

/// Whether an origin (its bytes) is on a private network.
pub fn is_local_network(origin: &[u8]) -> (r: bool)
    ensures
        r == local_network_origin(origin@),
{
    if starts_with_bytes(origin, "http://192.168.".as_bytes()) {
        return true;
    }
    if starts_with_bytes(origin, "http://10.".as_bytes()) {
        return true;
    }
    false
}

/// The origins whose browsers may call the API: local ones on any port,
/// the hosted web client, and private networks.
pub open spec fn allowed_origin(o: Seq<u8>) -> bool {
    ||| has_prefix(o, encode_utf8("http://localhost:"@))
    ||| has_prefix(o, encode_utf8("http://127.0.0.1:"@))
    ||| has_prefix(o, encode_utf8("https://gitnexus.vercel.app"@))
    ||| local_network_origin(o)
}

/// Whether a browser at `origin` may call the API (see `allowed_origin`).
pub fn origin_allowed(origin: &[u8]) -> (r: bool)
    ensures
        r == allowed_origin(origin@),
{
    starts_with_bytes(origin, "http://localhost:".as_bytes())
        || starts_with_bytes(origin, "http://127.0.0.1:".as_bytes())
        || starts_with_bytes(origin, "https://gitnexus.vercel.app".as_bytes())
        || is_local_network(origin)
}

/// Query parameters naming a repository, optionally.
pub struct NameParam {
    pub name: Option<String>,
}

/// Query parameters naming a file of a repository.
pub struct FileParam {
    pub name: String,
    pub path: String,
}

/// Query parameters of a grep; the search ignores case unless
/// `case_sensitive` is set (it is not by default).
pub struct GrepParam {
    pub name: String,
    pub query: String,
    pub case_sensitive: bool,
}

/// Query parameters naming a node of a repository.
pub struct ProcessParam {
    pub name: String,
    pub id: String,
}

/// Body of a ranked search.
pub struct QueryBody {
    pub query: String,
    pub name: String,
    pub limit: Option<usize>,
}

/// Body of a symbol search.
pub struct SearchBody {
    pub symbol: String,
    pub name: String,
}

/// Body of an analysis request.
pub struct AnalyzeBody {
    pub path: String,
}

impl GrepParam {
    /// Whether the grep ignores case.
    pub fn ignore_case(&self) -> (r: bool)
        ensures
            r == !self.case_sensitive,
    {
        !self.case_sensitive
    }
}

impl QueryBody {
    /// The number of results asked for: 20 unless given.
    pub fn result_limit(&self) -> (r: usize)
        ensures
            r == match self.limit { Some(l) => l, None => 20 },
    {
        match self.limit {
            Some(l) => l,
            None => 20,
        }
    }
}

/// Whether the text `needle` occurs in the text `hay`, as `str::contains`
/// finds it on their UTF-8 encodings.
pub open spec fn text_contains(hay: Seq<char>, needle: Seq<char>) -> bool {
    first_match(encode_utf8(hay), encode_utf8(needle)) is Some
}

/// Whether a node's name holds `symbol`, ignoring case.
pub open spec fn name_matches(n: GraphNode, symbol: Seq<char>) -> bool {
    text_contains(lowercase(n.name@), lowercase(symbol))
}

/// The nodes whose names hold `symbol`, ignoring case, in graph order.
pub fn symbol_matches<'a>(graph: &'a KnowledgeGraph, symbol: &str) -> (r: Vec<&'a GraphNode>)
    ensures
        refs_to(r@, graph.node_list().filter(|n: GraphNode| name_matches(n, symbol@))),
{
    let ghost p = |n: GraphNode| name_matches(n, symbol@);
    let q = to_lower(symbol);
    let needle = q.as_str().as_bytes();
    let nodes = graph.nodes();
    let mut r: Vec<&GraphNode> = Vec::new();
    let mut i: usize = 0;
    proof {
        crate::graph::lemma_filter_all(nodes@, p);
    }
    while i < nodes.len()
        invariant
            nodes@ == graph.node_list(),
            needle@ == encode_utf8(lowercase(symbol@)),
            0 <= i <= nodes@.len(),
            refs_to(r@, nodes@.take(i as int).filter(p)),
            p == |n: GraphNode| name_matches(n, symbol@),
        decreases nodes@.len() - i,
    {
        proof {
            crate::graph::lemma_filter_step(nodes@, p, i as int);
        }
        let name = to_lower(nodes[i].name.as_str());
        if find_bytes(name.as_str().as_bytes(), needle).is_some() {
            r.push(&nodes[i]);
        }
        i = i + 1;
    }
    proof {
        crate::graph::lemma_filter_all(nodes@, p);
    }
    r
}

/// Law: symbol search keeps a node of the graph exactly when the lowered
/// query occurs somewhere in its lowered name (compared on their UTF-8
/// bytes); in particular a node whose name is the query, up to case, is
/// always found.
pub proof fn law_symbol_search(nodes: Seq<GraphNode>, symbol: Seq<char>, n: GraphNode)
    requires
        nodes.contains(n),
    ensures
        nodes.filter(|m: GraphNode| name_matches(m, symbol)).contains(n)
            == (exists|p: int| occurs_at(encode_utf8(lowercase(n.name@)), encode_utf8(lowercase(symbol)), p)),
        lowercase(n.name@) == lowercase(symbol) ==> nodes.filter(|m: GraphNode| name_matches(m, symbol)).contains(n),
{
    let pred = |m: GraphNode| name_matches(m, symbol);
    let hay = encode_utf8(lowercase(n.name@));
    let needle = encode_utf8(lowercase(symbol));
    nodes.filter_lemma(pred);
    lemma_first_match(hay, needle);
    let i = choose|i: int| 0 <= i < nodes.len() && nodes[i] == n;
    assert(nodes[i] == n);
    if nodes.filter(pred).contains(n) {
        let k = choose|k: int| 0 <= k < nodes.filter(pred).len() && nodes.filter(pred)[k] == n;
        assert(pred(nodes.filter(pred)[k]));
        let p = first_match(hay, needle)->0;
        assert(occurs_at(hay, needle, p));
    }
    if exists|p: int| occurs_at(hay, needle, p) {
        let p = choose|p: int| occurs_at(hay, needle, p);
        assert(occurs_at(hay, needle, p));
        assert(pred(nodes[i]));
    }
    if lowercase(n.name@) == lowercase(symbol) {
        assert(hay.subrange(0, needle.len() as int) =~= needle);
        assert(occurs_at(hay, needle, 0));
        assert(pred(nodes[i]));
    }
}

/// The state of an analysis job.
#[derive(Debug, Clone)]
pub enum JobStatus {
    Running,
    Done,
    Error(String),
    Cancelled,
}

/// The name a status is reported under.
pub open spec fn status_label(s: JobStatus) -> Seq<char> {
    match s {
        JobStatus::Running => "running"@,
        JobStatus::Done => "done"@,
        JobStatus::Error(_) => "error"@,
        JobStatus::Cancelled => "cancelled"@,
    }
}

impl JobStatus {
    /// The name the status is reported under.
    pub fn label(&self) -> (r: &'static str)
        ensures
            r@ == status_label(*self),
    {
        match self {
            JobStatus::Running => "running",
            JobStatus::Done => "done",
            JobStatus::Error(_) => "error",
            JobStatus::Cancelled => "cancelled",
        }
    }

    /// A copy of the status.
    pub fn duplicate(&self) -> (r: JobStatus)
        ensures
            r == *self,
    {
        match self {
            JobStatus::Running => JobStatus::Running,
            JobStatus::Done => JobStatus::Done,
            JobStatus::Error(e) => JobStatus::Error(e.clone()),
            JobStatus::Cancelled => JobStatus::Cancelled,
        }
    }

    /// The status a finished run leaves: done, or the error it ended with.
    pub fn finished(outcome: Result<(), String>) -> (r: JobStatus)
        ensures
            match outcome {
                Ok(_) => r is Done,
                Err(e) => r == JobStatus::Error(e),
            },
    {
        match outcome {
            Ok(_) => JobStatus::Done,
            Err(e) => JobStatus::Error(e),
        }
    }
}

/// What the server keeps of an analysis job.
#[derive(Debug)]
pub struct AnalyzeJob {
    pub job_id: String,
    pub status: JobStatus,
    /// The last progress report, once there is one.
    pub progress: Option<PipelineProgress>,
}

/// The analysis jobs, each id at most once.
#[derive(Debug)]
pub struct JobTable {
    entries: Vec<AnalyzeJob>,
}

/// The value of a job: its status and last report.
pub type JobState = (JobStatus, Option<PipelineProgress>);

/// Whether some entry of `s` has id `id`.
pub open spec fn has_job(s: Seq<AnalyzeJob>, id: Seq<char>) -> bool {
    exists|i: int| 0 <= i < s.len() && #[trigger] s[i].job_id@ == id
}

impl JobTable {
    /// The jobs by id.
    pub closed spec fn jobs(&self) -> Map<Seq<char>, JobState> {
        Map::new(
            |id: Seq<char>| has_job(self.entries@, id),
            |id: Seq<char>| {
                let i = choose|i: int| 0 <= i < self.entries@.len() && #[trigger] self.entries@[i].job_id@ == id;
                (self.entries@[i].status, self.entries@[i].progress)
            },
        )
    }

    /// No id occurs twice.
    #[verifier::type_invariant]
    closed spec fn wf(&self) -> bool {
        forall|i: int, j: int|
            0 <= i < self.entries@.len() && 0 <= j < self.entries@.len() && i != j
                ==> self.entries@[i].job_id@ != self.entries@[j].job_id@
    }

    /// No jobs.
    pub fn new() -> (t: JobTable)
        ensures
            t.jobs() == Map::<Seq<char>, JobState>::empty(),
    {
        let t = JobTable { entries: Vec::new() };
        assert(t.jobs() =~= Map::<Seq<char>, JobState>::empty());
        t
    }

    fn position(&self, id: &str) -> (r: Option<usize>)
        ensures
            match r {
                Some(i) => i < self.entries@.len() && self.entries@[i as int].job_id@ == id@
                    && self.jobs().dom().contains(id@)
                    && self.jobs()[id@] == (self.entries@[i as int].status, self.entries@[i as int].progress),
                None => !self.jobs().dom().contains(id@),
            },
    {
        proof { use_type_invariant(self); }
        let mut i: usize = 0;
        while i < self.entries.len()
            invariant
                self.wf(),
                0 <= i <= self.entries@.len(),
                forall|k: int| 0 <= k < i ==> self.entries@[k].job_id@ != id@,
            decreases self.entries@.len() - i,
        {
            if crate::text::same_text(self.entries[i].job_id.as_str(), id) {
                proof {
                    let w = choose|w: int| 0 <= w < self.entries@.len() && #[trigger] self.entries@[w].job_id@ == id@;
                    assert(w == i);
                }
                return Some(i);
            }
            i = i + 1;
        }
        None
    }

    /// The job with this id, if there is one.
    pub fn get(&self, id: &str) -> (r: Option<&AnalyzeJob>)
        ensures
            match r {
                Some(e) => e.job_id@ == id@ && self.jobs().dom().contains(id@) && self.jobs()[id@] == (e.status, e.progress),
                None => !self.jobs().dom().contains(id@),
            },
    {
        match self.position(id) {
            Some(i) => Some(&self.entries[i]),
            None => None,
        }
    }

    /// Replaces the entry at `i`, whose id is kept.
    #[verifier::spinoff_prover]
    fn set_entry(&mut self, i: usize, status: JobStatus, progress: Option<PipelineProgress>)
        requires
            i < old(self).entries@.len(),
        ensures
            final(self).jobs() == old(self).jobs().insert(old(self).entries@[i as int].job_id@, (status, progress)),
    {
        proof { use_type_invariant(&*self); }
        let ghost id = self.entries@[i as int].job_id@;
        let job_id = self.entries[i].job_id.clone();
        let ghost before = self.entries@;
        let mut es: Vec<AnalyzeJob> = Vec::new();
        std::mem::swap(&mut es, &mut self.entries);
        es.set(i, AnalyzeJob { job_id, status, progress });
        self.entries = es;
        proof {
            assert forall|k: int| 0 <= k < before.len() implies self.entries@[k].job_id@ == #[trigger] before[k].job_id@ by {}
            assert forall|x: Seq<char>| has_job(self.entries@, x) == has_job(before, x) by {
                if has_job(before, x) {
                    let k = choose|k: int| 0 <= k < before.len() && #[trigger] before[k].job_id@ == x;
                    assert(self.entries@[k].job_id@ == x);
                }
                if has_job(self.entries@, x) {
                    let k = choose|k: int| 0 <= k < self.entries@.len() && #[trigger] self.entries@[k].job_id@ == x;
                    assert(before[k].job_id@ == x);
                }
            }
            assert forall|x: Seq<char>| #[trigger] self.jobs().dom().contains(x) implies self.jobs()[x]
                == old(self).jobs().insert(id, (status, progress))[x] by {
                let k = choose|k: int| 0 <= k < self.entries@.len() && #[trigger] self.entries@[k].job_id@ == x;
                if x != id {
                    let w = choose|w: int| 0 <= w < before.len() && #[trigger] before[w].job_id@ == x;
                    assert(w == k);
                }
            }
            assert(self.jobs() =~= old(self).jobs().insert(id, (status, progress)));
        }
    }

    /// Starts tracking a job as running with no report yet; a job already
    /// under this id is replaced.
    #[verifier::spinoff_prover]
    pub fn insert(&mut self, job_id: String)
        ensures
            final(self).jobs() == old(self).jobs().insert(job_id@, (JobStatus::Running, None)),
    {
        proof { use_type_invariant(&*self); }
        match self.position(job_id.as_str()) {
            Some(i) => {
                self.set_entry(i, JobStatus::Running, None);
            },
            None => {
                let ghost id = job_id@;
                let ghost before = self.entries@;
                let mut es: Vec<AnalyzeJob> = Vec::new();
                std::mem::swap(&mut es, &mut self.entries);
                es.push(AnalyzeJob { job_id, status: JobStatus::Running, progress: None });
                self.entries = es;
                proof {
                    let n = before.len() as int;
                    assert(self.entries@[n].job_id@ == id);
                    assert forall|x: Seq<char>| #[trigger] has_job(self.entries@, x) == (has_job(before, x) || x == id) by {
                        if has_job(before, x) {
                            let k = choose|k: int| 0 <= k < before.len() && #[trigger] before[k].job_id@ == x;
                            assert(self.entries@[k].job_id@ == x);
                        }
                        if has_job(self.entries@, x) && x != id {
                            let k = choose|k: int| 0 <= k < self.entries@.len() && #[trigger] self.entries@[k].job_id@ == x;
                            assert(before[k].job_id@ == x);
                        }
                    }
                    assert forall|x: Seq<char>| #[trigger] self.jobs().dom().contains(x) implies self.jobs()[x]
                        == old(self).jobs().insert(id, (JobStatus::Running, None))[x] by {
                        let k = choose|k: int| 0 <= k < self.entries@.len() && #[trigger] self.entries@[k].job_id@ == x;
                        if x == id {
                            assert(k == n);
                        } else {
                            let w = choose|w: int| 0 <= w < before.len() && #[trigger] before[w].job_id@ == x;
                            assert(self.entries@[w].job_id@ == x);
                            assert(w == k);
                        }
                    }
                    assert(self.jobs() =~= old(self).jobs().insert(id, (JobStatus::Running, None)));
                }
            },
        }
    }

    /// Records the latest report of a job; unknown ids are ignored.
    pub fn record_progress(&mut self, job_id: &str, progress: PipelineProgress)
        ensures
            old(self).jobs().dom().contains(job_id@) ==> final(self).jobs() == old(self).jobs().insert(
                job_id@,
                (old(self).jobs()[job_id@].0, Some(progress)),
            ),
            !old(self).jobs().dom().contains(job_id@) ==> final(self).jobs() == old(self).jobs(),
    {
        match self.position(job_id) {
            Some(i) => {
                let status = self.entries[i].status.duplicate();
                self.set_entry(i, status, Some(progress));
            },
            None => {},
        }
    }

    /// Sets the status of a job; unknown ids are ignored.
    pub fn set_status(&mut self, job_id: &str, status: JobStatus)
        ensures
            old(self).jobs().dom().contains(job_id@) ==> final(self).jobs() == old(self).jobs().insert(
                job_id@,
                (status, old(self).jobs()[job_id@].1),
            ),
            !old(self).jobs().dom().contains(job_id@) ==> final(self).jobs() == old(self).jobs(),
    {
        match self.position(job_id) {
            Some(i) => {
                let progress = copy_progress(&self.entries[i].progress);
                self.set_entry(i, status, progress);
            },
            None => {},
        }
    }

    /// Marks a job cancelled. Returns whether the job was known; unknown ids
    /// change nothing.
    pub fn cancel(&mut self, job_id: &str) -> (r: bool)
        ensures
            r == old(self).jobs().dom().contains(job_id@),
            r ==> final(self).jobs() == old(self).jobs().insert(
                job_id@,
                (JobStatus::Cancelled, old(self).jobs()[job_id@].1),
            ),
            !r ==> final(self).jobs() == old(self).jobs(),
    {
        let known = self.position(job_id).is_some();
        self.set_status(job_id, JobStatus::Cancelled);
        known
    }
}

/// A copy of an optional report.
fn copy_progress(p: &Option<PipelineProgress>) -> (r: Option<PipelineProgress>)
    ensures
        r == *p,
{
    match p {
        Some(x) => Some(x.duplicate()),
        None => None,
    }
}

/// After a job is cancelled it reads as cancelled, keeping its last report,
/// and every other job reads as before.
pub proof fn law_cancel(jobs: Map<Seq<char>, JobState>, id: Seq<char>, other: Seq<char>)
    requires
        jobs.dom().contains(id),
        other != id,
    ensures
        jobs.insert(id, (JobStatus::Cancelled, jobs[id].1))[id] == (JobStatus::Cancelled, jobs[id].1),
        jobs.insert(id, (JobStatus::Cancelled, jobs[id].1)).dom().contains(other) == jobs.dom().contains(other),
        jobs.dom().contains(other) ==> jobs.insert(id, (JobStatus::Cancelled, jobs[id].1))[other] == jobs[other],
{
}

/// A job that was just started reads as running with no report.
pub proof fn law_insert(jobs: Map<Seq<char>, JobState>, id: Seq<char>)
    ensures
        jobs.insert(id, (JobStatus::Running, None))[id] == (JobStatus::Running, None::<PipelineProgress>),
        jobs.insert(id, (JobStatus::Running, None)).dom().contains(id),
{
}

} // verus!
