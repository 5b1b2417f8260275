//! The command line: its commands and options, and the decisions and text
//! of each command. Parsing the arguments, touching the disk and printing
//! are the caller's part.

use vstd::prelude::*;
use crate::pipeline::PipelineOptions;
use crate::storage::{ancestry, find_repo, first_true, get_git_root, index_dir, nth_parent, picked_root};
use crate::text::{opt_text, owned, push_str};
use crate::time::{decimal, push_padded, zero_padded};
use crate::types::{PipelineProgress, RepoMeta};

verus! {

/// The parsed command line.
#[derive(Debug)]
pub struct Cli {
    pub command: Commands,
}

/// The commands.
#[derive(Debug)]
pub enum Commands {
    /// Index a repository and build its knowledge graph.
    Analyze(AnalyzeCommand),
    /// Start the HTTP API server.
    Serve(ServeCommand),
    /// Start the MCP stdio server.
    Mcp,
    /// List all indexed repositories.
    List,
    /// Show index status for a repository.
    Status(StatusCommand),
    /// Delete the index of a repository.
    Clean(CleanCommand),
    /// Run a ranked search query.
    Query(QueryCommand),
}

/// Options of `analyze`.
#[derive(Debug)]
pub struct AnalyzeCommand {
    /// The repository; the current directory's git root when absent.
    pub path: Option<String>,
    pub force: bool,
    pub verbose: bool,
    /// Index a folder without `.git` as it is.
    pub skip_git: bool,
}

/// Options of `clean`.
#[derive(Debug)]
pub struct CleanCommand {
    pub path: Option<String>,
}

/// Options of `query`.
#[derive(Debug)]
pub struct QueryCommand {
    pub query: String,
    /// A registered repository; the current directory when absent.
    pub name: Option<String>,
    /// At most this many results (20 unless given).
    pub limit: usize,
}

/// Options of `serve`.
#[derive(Debug)]
pub struct ServeCommand {
    /// 4747 unless given.
    pub port: u16,
}

/// Options of `status`.
#[derive(Debug)]
pub struct StatusCommand {
    pub path: Option<String>,
}

/// The refusal of `analyze` outside a git repository.
pub open spec fn no_git_message() -> Seq<char> {
    "No .git directory found. Use --skip-git to index a non-git folder."@
}

/// The texts of a result.
pub open spec fn result_text(r: Result<String, String>) -> Result<Seq<char>, Seq<char>> {
    match r {
        Ok(p) => Ok(p@),
        Err(e) => Err(e@),
    }
}

/// The repository that `analyze` indexes: the given path (already made
/// canonical), else the git root of the current directory, else, with
/// `--skip-git`, the current directory itself.
pub open spec fn analyze_root(given: Option<Seq<char>>, cwd: Seq<char>, git_root: Option<Seq<char>>, skip_git: bool) -> Result<Seq<char>, Seq<char>> {
    match given {
        Some(p) => Ok(p),
        None => match git_root {
            Some(root) => Ok(root),
            None => if skip_git { Ok(cwd) } else { Err(no_git_message()) },
        },
    }
}

impl AnalyzeCommand {
    /// The options the pipeline runs with.
    pub fn options(&self) -> (r: PipelineOptions)
        ensures
            r.force == self.force && r.verbose == self.verbose,
    {
        PipelineOptions { force: self.force, verbose: self.verbose }
    }

    /// Picks the repository to index (see `analyze_root`), given the
    /// canonical form of the path option, the current directory and its git
    /// root.
    pub fn choose_root(given: Option<String>, cwd: &str, git_root: Option<String>, skip_git: bool) -> (r: Result<String, String>)
        ensures
            match r {
                Ok(p) => analyze_root(opt_text(given), cwd@, opt_text(git_root), skip_git) == Ok::<Seq<char>, Seq<char>>(p@),
                Err(e) => analyze_root(opt_text(given), cwd@, opt_text(git_root), skip_git) == Err::<Seq<char>, Seq<char>>(e@),
            },
    {
        match given {
            Some(p) => Ok(p),
            None => match git_root {
                Some(root) => Ok(root),
                None => if skip_git {
                    Ok(owned(cwd))
                } else {
                    Err(owned("No .git directory found. Use --skip-git to index a non-git folder."))
                },
            },
        }
    }

    /// Picks the repository to index, looking up the git root of `cwd` on
    /// disk when no path was given. A repository it picks is the given path,
    /// or `cwd` or one of its ancestors.
    pub fn resolve_root(&self, canonical: Option<String>, cwd: &str) -> (r: Result<String, String>)
        ensures
            canonical matches Some(p) ==> r == Ok::<String, String>(p),
            canonical is None ==> match r {
                Ok(p) => exists|n: nat| nth_parent(cwd@, n) == Some(p@),
                Err(e) => !self.skip_git && e@ == no_git_message(),
            },
            canonical is None ==> exists|a: Seq<Seq<char>>, probes: Seq<bool>|
                #![trigger ancestry(cwd@, a), picked_root(a, probes)]
                ancestry(cwd@, a) && probes.len() == a.len()
                && result_text(r) == analyze_root(None, cwd@, picked_root(a, probes), self.skip_git),
    {
        match canonical {
            Some(p) => Ok(p),
            None => {
                let root = get_git_root(cwd);
                proof {
                    if root is None {
                        assert(nth_parent(cwd@, 0) == Some(cwd@));
                    }
                }
                let r = Self::choose_root(None, cwd, root, self.skip_git);
                proof {
                    let (a, probes) = choose|a: Seq<Seq<char>>, probes: Seq<bool>|
                        #![trigger ancestry(cwd@, a), first_true(probes)]
                        ancestry(cwd@, a) && probes.len() == a.len() && opt_text(root) == picked_root(a, probes);
                    assert(result_text(r) == analyze_root(None, cwd@, picked_root(a, probes), self.skip_git));
                }
                r
            },
        }
    }
}

/// `[<percent>%] <message>`, the line printed for a progress report.
pub open spec fn progress_text(p: PipelineProgress) -> Seq<char> {
    "["@ + decimal(p.percent as nat) + "%] "@ + p.message@
}

/// The line printed for a progress report (see `progress_text`).
pub fn progress_line(p: &PipelineProgress) -> (r: String)
    ensures
        r@ == progress_text(*p),
{
    let mut r = owned("[");
    push_padded(&mut r, p.percent as u64, 0);
    push_str(&mut r, "%] ");
    push_str(&mut r, p.message.as_str());
    proof {
        assert(zero_padded(p.percent as nat, 0) == decimal(p.percent as nat));
    }
    r
}

/// `<name> — <path> (<n> nodes, <e> edges)`, the line of a registered
/// repository.
pub open spec fn repo_text(m: RepoMeta) -> Seq<char> {
    m.name@ + " — "@ + m.repo_path@ + " ("@ + decimal(m.stats.nodes as nat) + " nodes, "@
        + decimal(m.stats.edges as nat) + " edges)"@
}

/// The line of a registered repository (see `repo_text`).
pub fn repo_line(m: &RepoMeta) -> (r: String)
    ensures
        r@ == repo_text(*m),
{
    let mut r = owned(m.name.as_str());
    push_str(&mut r, " — ");
    push_str(&mut r, m.repo_path.as_str());
    push_str(&mut r, " (");
    push_padded(&mut r, m.stats.nodes as u64, 0);
    push_str(&mut r, " nodes, ");
    push_padded(&mut r, m.stats.edges as u64, 0);
    push_str(&mut r, " edges)");
    proof {
        assert(zero_padded(m.stats.nodes as nat, 0) == decimal(m.stats.nodes as nat));
        assert(zero_padded(m.stats.edges as nat, 0) == decimal(m.stats.edges as nat));
        assert(r@ =~= repo_text(*m));
    }
    r
}

/// What `list` prints: a line per registered repository, or a note that
/// there are none.
pub fn list_lines(repos: &Vec<RepoMeta>) -> (r: Vec<String>)
    ensures
        repos@.len() == 0 ==> r@.len() == 1 && r@[0]@ == "No indexed repositories."@,
        repos@.len() > 0 ==> r@.len() == repos@.len()
            && forall|i: int| 0 <= i < repos@.len() ==> (#[trigger] r@[i])@ == repo_text(repos@[i]),
{
    let mut r: Vec<String> = Vec::new();
    if repos.len() == 0 {
        r.push(owned("No indexed repositories."));
        return r;
    }
    let mut i: usize = 0;
    while i < repos.len()
        invariant
            0 <= i <= repos@.len(),
            r@.len() == i,
            forall|k: int| 0 <= k < i ==> (#[trigger] r@[k])@ == repo_text(repos@[k]),
        decreases repos@.len() - i,
    {
        r.push(repo_line(&repos[i]));
        i = i + 1;
    }
    r
}

/// The refusal of `query` for a name that is not registered.
pub open spec fn unknown_repo_message(name: Seq<char>) -> Seq<char> {
    "Repository '"@ + name + "' not found"@
}

impl QueryCommand {
    /// The repository that `query` searches: the path of the first
    /// registered repository with the given name, or the current directory
    /// when no name is given.
    pub fn repo_path(&self, repos: &Vec<RepoMeta>, cwd: &str) -> (r: Result<String, String>)
        ensures
            match self.name {
                None => r matches Ok(p) && p@ == cwd@,
                Some(n) => match r {
                    Ok(p) => exists|i: int| 0 <= i < repos@.len() && (#[trigger] repos@[i]).name@ == n@
                        && p@ == repos@[i].repo_path@ && forall|j: int| 0 <= j < i ==> (#[trigger] repos@[j]).name@ != n@,
                    Err(e) => e@ == unknown_repo_message(n@) && forall|j: int| 0 <= j < repos@.len() ==> (#[trigger] repos@[j]).name@ != n@,
                },
            },
    {
        match &self.name {
            Some(n) => match find_repo(repos, n.as_str()) {
                Some(m) => Ok(m.repo_path.clone()),
                None => {
                    let mut e = owned("Repository '");
                    push_str(&mut e, n.as_str());
                    push_str(&mut e, "' not found");
                    proof {
                        assert(e@ =~= unknown_repo_message(n@));
                    }
                    Err(e)
                },
            },
            None => Ok(owned(cwd)),
        }
    }
}

/// What the index's `meta.json` says, as far as `status` reads it: the time
/// of indexing and the two counts, each where present.
pub struct IndexSummary {
    pub indexed_at: Option<String>,
    pub node_count: Option<u64>,
    pub relationship_count: Option<u64>,
}

/// The lines `status` prints for an index: each figure, with `unknown` for a
/// missing time and 0 for a missing count.
pub open spec fn status_text(s: IndexSummary) -> Seq<Seq<char>> {
    seq![
        "Indexed at: "@ + match s.indexed_at { Some(t) => t@, None => "unknown"@ },
        "Nodes: "@ + decimal(match s.node_count { Some(n) => n as nat, None => 0nat }),
        "Relationships: "@ + decimal(match s.relationship_count { Some(n) => n as nat, None => 0nat }),
    ]
}

/// `label` followed by the decimal notation of `n`.
fn labelled_number(label: &str, n: u64) -> (r: String)
    ensures
        r@ == label@ + decimal(n as nat),
{
    let mut r = owned(label);
    push_padded(&mut r, n, 0);
    proof {
        assert(zero_padded(n as nat, 0) == decimal(n as nat));
    }
    r
}

impl StatusCommand {
    /// What `status` prints: the figures of the index when it has one
    /// (see `status_text`), else how to build one.
    pub fn report_lines(summary: Option<IndexSummary>) -> (r: Vec<String>)
        ensures
            match summary {
                Some(s) => r@.map_values(|l: String| l@) == status_text(s),
                None => r@.map_values(|l: String| l@) == seq![
                    "This repository has not been indexed yet."@,
                    "Run `ast-line analyze` to build the knowledge graph."@,
                ],
            },
    {
        let mut r: Vec<String> = Vec::new();
        match summary {
            Some(s) => {
                let mut first = owned("Indexed at: ");
                match &s.indexed_at {
                    Some(t) => push_str(&mut first, t.as_str()),
                    None => push_str(&mut first, "unknown"),
                }
                let nodes: u64 = match s.node_count { Some(n) => n, None => 0 };
                let rels: u64 = match s.relationship_count { Some(n) => n, None => 0 };
                r.push(first);
                r.push(labelled_number("Nodes: ", nodes));
                r.push(labelled_number("Relationships: ", rels));
                proof {
                    assert(r@.map_values(|l: String| l@) =~= status_text(s));
                }
            },
            None => {
                r.push(owned("This repository has not been indexed yet."));
                r.push(owned("Run `ast-line analyze` to build the knowledge graph."));
                proof {
                    assert(r@.map_values(|l: String| l@) =~= seq![
                        "This repository has not been indexed yet."@,
                        "Run `ast-line analyze` to build the knowledge graph."@,
                    ]);
                }
            },
        }
        r
    }
}

} // verus!
