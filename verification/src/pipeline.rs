//! The ingestion pipeline: scan, structure, parse, cross-file links and
//! communities, each a phase of its own module, then persisting. The
//! driver that walks the disk, reads the files and writes the result calls
//! the phases in that order; what it reports at the end is decided here.

use vstd::prelude::*;
use crate::graph::KnowledgeGraph;
use crate::types::{PipelinePhase, PipelineProgress, PipelineStats, is_report, progress_report, stats_of};

verus! {

/// Options of a pipeline run.
#[derive(Debug, Clone, Copy, PartialEq, Eq, Structural)]
pub struct PipelineOptions {
    /// Re-index even if the graph appears up to date.
    pub force: bool,
    /// Print extra diagnostic output.
    pub verbose: bool,
}

impl Default for PipelineOptions {
    /// Neither forced nor verbose.
    fn default() -> (r: PipelineOptions)
        ensures
            !r.force && !r.verbose,
    {
        PipelineOptions { force: false, verbose: false }
    }
}

/// The counters of the last reports: every file done, and the graph's size.
pub fn final_stats(total_files: usize, graph: &KnowledgeGraph) -> (r: PipelineStats)
    ensures
        r == (PipelineStats {
            files_processed: total_files,
            total_files,
            nodes_created: graph.node_list().len() as usize,
            relationships_created: graph.rel_list().len() as usize,
        }),
{
    stats_of(total_files, total_files, graph.node_count(), graph.relationship_count())
}

/// The report before the graph is written, at 90%.
pub fn persisting_report(total_files: usize, graph: &KnowledgeGraph) -> (r: PipelineProgress)
    ensures
        is_report(
            r,
            PipelinePhase::Persisting,
            90,
            "Persisting knowledge graph..."@,
            Some(PipelineStats {
                files_processed: total_files,
                total_files,
                nodes_created: graph.node_list().len() as usize,
                relationships_created: graph.rel_list().len() as usize,
            }),
        ),
{
    progress_report(
        PipelinePhase::Persisting,
        90,
        "Persisting knowledge graph...",
        None,
        Some(final_stats(total_files, graph)),
    )
}

/// The last report, at 100%, with the summary `message` that the caller
/// words (it holds the elapsed time).
pub fn done_report(total_files: usize, graph: &KnowledgeGraph, message: String) -> (r: PipelineProgress)
    ensures
        r.phase == PipelinePhase::Done,
        r.percent == 100,
        r.message == message,
        r.detail is None,
        r.stats == Some(PipelineStats {
            files_processed: total_files,
            total_files,
            nodes_created: graph.node_list().len() as usize,
            relationships_created: graph.rel_list().len() as usize,
        }),
{
    PipelineProgress {
        phase: PipelinePhase::Done,
        percent: 100,
        message,
        detail: None,
        stats: Some(final_stats(total_files, graph)),
    }
}

} // verus!
