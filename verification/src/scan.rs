//! The scan phase: which files of a repository enter the index. Walking the
//! directory tree and reading file sizes is the caller's part; this module
//! decides what the walk yields and what the phase reports.

use vstd::prelude::*;
use crate::graph::KnowledgeGraph;
use crate::text::{chars_of, push_char};
use crate::types::{PipelinePhase, PipelineProgress, PipelineStats, is_report, progress_report, stats_of};

verus! {

/// A file that entered the index: its repository-relative path, with `/`
/// as separator, and its size in bytes.
#[derive(Debug, Clone)]
pub struct ScannedFile {
    pub path: String,
    pub size: u64,
}

/// What the scan phase hands on.
#[derive(Debug)]
pub struct ScanOutput {
    pub scanned_files: Vec<ScannedFile>,
    pub all_paths: Vec<String>,
    pub total_files: usize,
}

/// The scan phase.
pub struct ScanPhase;

/// Files larger than this many bytes are left out (512 KiB): they are likely
/// generated or vendored.
pub const MAX_FILE_SIZE: u64 = 512 * 1024;

/// `s` with every `\` turned into `/`.
pub open spec fn slashes(s: Seq<char>) -> Seq<char> {
    s.map_values(|c: char| if c == '\\' { '/' } else { c })
}

/// `p` with every `\` turned into `/`.
pub fn normalize_separators(p: &str) -> (r: String)
    ensures
        r@ == slashes(p@),
{
    let cs = chars_of(p);
    let mut r = String::new();
    let mut i: usize = 0;
    while i < cs.len()
        invariant
            cs@ == p@,
            0 <= i <= cs@.len(),
            r@ == slashes(cs@.take(i as int)),
        decreases cs@.len() - i,
    {
        let c = cs[i];
        push_char(&mut r, if c == '\\' { '/' } else { c });
        assert(slashes(cs@.take(i + 1)) =~= slashes(cs@.take(i as int)).push(if c == '\\' { '/' } else { c }));
        i = i + 1;
    }
    assert(cs@.take(cs@.len() as int) =~= cs@);
    r
}

/// The files a walk admits, in walk order: each candidate (its relative
/// path, and its size where it could be read) whose size was read and is at
/// most `MAX_FILE_SIZE`.
pub open spec fn admitted(c: Seq<(String, Option<u64>)>) -> Seq<(Seq<char>, u64)>
    decreases c.len(),
{
    if c.len() == 0 {
        Seq::empty()
    } else {
        let before = admitted(c.drop_last());
        match c.last().1 {
            Some(size) => if size <= MAX_FILE_SIZE {
                before.push((c.last().0@, size))
            } else {
                before
            },
            None => before,
        }
    }
}

/// Every file a walk admits fits the size limit, and no more files are
/// admitted than were walked.
pub proof fn law_admitted_within_limit(c: Seq<(String, Option<u64>)>)
    ensures
        forall|k: int| 0 <= k < admitted(c).len() ==> (#[trigger] admitted(c)[k]).1 <= MAX_FILE_SIZE,
        admitted(c).len() + too_large(c) <= c.len(),
    decreases c.len(),
{
    if c.len() > 0 {
        law_admitted_within_limit(c.drop_last());
        let before = admitted(c.drop_last());
        assert forall|k: int| 0 <= k < admitted(c).len() implies (#[trigger] admitted(c)[k]).1 <= MAX_FILE_SIZE by {
            if k < before.len() {
                assert(admitted(c)[k] == before[k]);
            }
        }
    }
}

/// How many candidates were left out for their size.
pub open spec fn too_large(c: Seq<(String, Option<u64>)>) -> nat
    decreases c.len(),
{
    if c.len() == 0 {
        0
    } else {
        too_large(c.drop_last()) + match c.last().1 {
            Some(size) => if size > MAX_FILE_SIZE { 1nat } else { 0nat },
            None => 0nat,
        }
    }
}

/// The plain value of a list of scanned files.
pub open spec fn scanned_view(s: Seq<ScannedFile>) -> Seq<(Seq<char>, u64)> {
    s.map_values(|f: ScannedFile| (f.path@, f.size))
}

/// Keeps the candidates of a walk that fit the size limit, and counts those
/// that do not. Candidates whose size could not be read are left out
/// without being counted.
pub fn admit_files(candidates: Vec<(String, Option<u64>)>) -> (r: (Vec<ScannedFile>, usize))
    ensures
        scanned_view(r.0@) == admitted(candidates@),
        r.1 == too_large(candidates@),
{
    let ghost c = candidates@;
    let n = candidates.len();
    let mut files: Vec<ScannedFile> = Vec::new();
    let mut skipped: usize = 0;
    proof {
        assert(c.take(0) =~= Seq::<(String, Option<u64>)>::empty());
        assert(scanned_view(files@) =~= Seq::<(Seq<char>, u64)>::empty());
    }
    for cand in it: candidates.into_iter()
        invariant
            it.seq() == c,
            scanned_view(files@) == admitted(c.take(it.index() as int)),
            skipped == too_large(c.take(it.index() as int)),
            skipped <= it.index(),
            n == c.len(),
    {
        let ghost k = it.index() as int;
        proof {
            assert(c.take(k + 1).drop_last() =~= c.take(k));
            assert(c.take(k + 1).last() == cand);
        }
        let (path, size) = cand;
        match size {
            Some(s) => {
                if s > MAX_FILE_SIZE {
                    skipped = skipped + 1;
                } else {
                    let ghost before = files@;
                    files.push(ScannedFile { path, size: s });
                    proof {
                        assert(scanned_view(files@) =~= scanned_view(before).push((cand.0@, s)));
                    }
                }
            },
            None => {},
        }
    }
    proof {
        assert(c.take(c.len() as int) =~= c);
    }
    (files, skipped)
}

/// The paths of the scanned files, in order.
pub open spec fn paths_of(s: Seq<ScannedFile>) -> Seq<Seq<char>> {
    s.map_values(|f: ScannedFile| f.path@)
}

impl ScanPhase {
    /// The report that opens the scan.
    pub fn opening_report() -> (r: PipelineProgress)
        ensures
            is_report(r, PipelinePhase::Extracting, 0, "Scanning repository..."@, None),
    {
        progress_report(PipelinePhase::Extracting, 0, "Scanning repository...", None, None)
    }

    /// The report after `current` of `total` walked files, the last of them
    /// at `relative`; the percentage is worked out by the caller.
    pub fn walk_report(current: usize, total: usize, relative: &str, node_count: usize, percent: u8) -> (r: PipelineProgress)
        ensures
            r.phase == PipelinePhase::Extracting,
            r.percent == percent,
            r.message@ == "Scanning repository..."@,
            r.detail matches Some(d) && d@ == relative@,
            r.stats == Some(PipelineStats {
                files_processed: current,
                total_files: total,
                nodes_created: node_count,
                relationships_created: 0,
            }),
    {
        progress_report(
            PipelinePhase::Extracting,
            percent,
            "Scanning repository...",
            Some(crate::text::owned(relative)),
            Some(stats_of(current, total, node_count, 0)),
        )
    }

    /// Ends the scan: hands on the scanned files with their paths and count,
    /// and reports the scan done at 15%.
    pub fn execute(scanned_files: Vec<ScannedFile>, graph: &KnowledgeGraph, progress: &mut Vec<PipelineProgress>) -> (r: ScanOutput)
        ensures
            r.scanned_files@ == scanned_files@,
            r.all_paths@.map_values(|p: String| p@) == paths_of(scanned_files@),
            r.total_files == scanned_files@.len(),
            final(progress)@.len() == old(progress)@.len() + 1,
            final(progress)@.take(old(progress)@.len() as int) == old(progress)@,
            is_report(
                final(progress)@.last(),
                PipelinePhase::Extracting,
                15,
                "Repository scanned successfully"@,
                Some(PipelineStats {
                    files_processed: scanned_files@.len() as usize,
                    total_files: scanned_files@.len() as usize,
                    nodes_created: graph.node_list().len() as usize,
                    relationships_created: 0,
                }),
            ),
    {
        let node_count = graph.node_count();
        let total_files = scanned_files.len();
        let mut all_paths: Vec<String> = Vec::new();
        let mut i: usize = 0;
        while i < scanned_files.len()
            invariant
                0 <= i <= scanned_files@.len(),
                all_paths@.map_values(|p: String| p@) == paths_of(scanned_files@.take(i as int)),
            decreases scanned_files@.len() - i,
        {
            let ghost before = all_paths@;
            all_paths.push(scanned_files[i].path.clone());
            proof {
                assert(all_paths@.map_values(|p: String| p@) =~= before.map_values(|p: String| p@).push(scanned_files@[i as int].path@));
                assert(paths_of(scanned_files@.take(i + 1)) =~= paths_of(scanned_files@.take(i as int)).push(scanned_files@[i as int].path@));
            }
            i = i + 1;
        }
        proof {
            assert(scanned_files@.take(scanned_files@.len() as int) =~= scanned_files@);
        }
        let ghost before = progress@;
        progress.push(progress_report(
            PipelinePhase::Extracting,
            15,
            "Repository scanned successfully",
            None,
            Some(stats_of(total_files, total_files, node_count, 0)),
        ));
        proof {
            assert(progress@.take(before.len() as int) =~= before);
        }
        ScanOutput { scanned_files, all_paths, total_files }
    }
}

/// Whether `p` is the scan's report after `current` of `total` walked files,
/// the last of them at `relative`, at `percent`.
pub open spec fn is_walk_report(
    p: PipelineProgress,
    current: usize,
    total: usize,
    relative: Seq<char>,
    node_count: usize,
    percent: u8,
) -> bool {
    &&& p.phase == PipelinePhase::Extracting
    &&& p.percent == percent
    &&& p.message@ == "Scanning repository..."@
    &&& p.detail matches Some(d) && d@ == relative
    &&& p.stats == Some(PipelineStats {
        files_processed: current,
        total_files: total,
        nodes_created: node_count,
        relationships_created: 0,
    })
}

impl ScanPhase {
    /// The whole scan phase over the candidates of a walk, in walk order
    /// (each one's relative path, and its size where it could be read), with
    /// the percentage reported after each one (`percents`, worked out by the
    /// caller): reports the start at 0%, one report per walked candidate,
    /// keeps the candidates that fit the size limit (see `admit_files`), and
    /// reports the end at 15%. Also returns how many were too large.
    pub fn run(
        candidates: Vec<(String, Option<u64>)>,
        percents: Vec<u8>,
        graph: &KnowledgeGraph,
        progress: &mut Vec<PipelineProgress>,
    ) -> (r: (ScanOutput, usize))
        requires
            percents@.len() == candidates@.len(),
        ensures
            ({
                let c = candidates@;
                let n = c.len();
                let base = old(progress)@.len();
                let kept = admitted(c);
                let nodes = graph.node_list().len() as usize;
                &&& scanned_view(r.0.scanned_files@) == kept
                &&& r.0.all_paths@.map_values(|p: String| p@) == paths_of(r.0.scanned_files@)
                &&& r.0.total_files == kept.len()
                &&& r.1 == too_large(c)
                &&& final(progress)@.len() == base + n + 2
                &&& final(progress)@.take(base as int) == old(progress)@
                &&& is_report(final(progress)@[base as int], PipelinePhase::Extracting, 0, "Scanning repository..."@, None)
                &&& forall|i: int| 0 <= i < n ==> is_walk_report(
                    #[trigger] final(progress)@[base + 1 + i],
                    (i + 1) as usize,
                    n as usize,
                    c[i].0@,
                    nodes,
                    percents@[i],
                )
                &&& is_report(
                    final(progress)@[base + n + 1int],
                    PipelinePhase::Extracting,
                    15,
                    "Repository scanned successfully"@,
                    Some(PipelineStats {
                        files_processed: kept.len() as usize,
                        total_files: kept.len() as usize,
                        nodes_created: nodes,
                        relationships_created: 0,
                    }),
                )
            }),
    {
        let ghost c = candidates@;
        let ghost base = progress@.len();
        let node_count = graph.node_count();
        let total = candidates.len();
        progress.push(Self::opening_report());
        proof {
            assert(progress@.take(base as int) =~= old(progress)@);
        }
        let mut i: usize = 0;
        while i < total
            invariant
                c == candidates@,
                total == c.len(),
                percents@.len() == total,
                node_count == graph.node_list().len(),
                0 <= i <= total,
                base == old(progress)@.len(),
                progress@.len() == base + 1 + i,
                progress@.take(base as int) == old(progress)@,
                is_report(progress@[base as int], PipelinePhase::Extracting, 0, "Scanning repository..."@, None),
                forall|k: int| 0 <= k < i ==> is_walk_report(
                    #[trigger] progress@[base + 1 + k],
                    (k + 1) as usize,
                    total,
                    c[k].0@,
                    node_count,
                    percents@[k],
                ),
            decreases total - i,
        {
            let ghost before = progress@;
            let report = Self::walk_report(i + 1, total, candidates[i].0.as_str(), node_count, percents[i]);
            progress.push(report);
            proof {
                assert(progress@.take(base as int) =~= before.take(base as int));
                assert(progress@[base as int] == before[base as int]);
                assert forall|k: int| 0 <= k < i + 1 implies is_walk_report(
                    #[trigger] progress@[base + 1 + k],
                    (k + 1) as usize,
                    total,
                    c[k].0@,
                    node_count,
                    percents@[k],
                ) by {
                    if k < i {
                        assert(progress@[base + 1 + k] == before[base + 1 + k]);
                    }
                }
            }
            i = i + 1;
        }
        let ghost walked = progress@;
        let (files, skipped) = admit_files(candidates);
        proof {
            assert(scanned_view(files@).len() == files@.len());
        }
        let out = Self::execute(files, graph, progress);
        proof {
            assert(progress@.take(walked.len() as int) == walked);
            assert(progress@.take(base as int) =~= walked.take(base as int));
            assert(progress@[base as int] == walked[base as int]);
            assert forall|k: int| 0 <= k < total implies is_walk_report(
                #[trigger] progress@[base + 1 + k],
                (k + 1) as usize,
                total,
                c[k].0@,
                node_count,
                percents@[k],
            ) by {
                assert(progress@[base + 1 + k] == walked[base + 1 + k]);
            }
        }
        (out, skipped)
    }
}

} // verus!
