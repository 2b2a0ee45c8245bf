//! What the local HTTP API and the desktop commands answer, once the work
//! behind a request is done.

use vstd::prelude::*;
use crate::git::{CommitInfo, GitError, PullResult};
use crate::workspace::{ProjectConfig, SnapshotSummary};

verus! {

pub const BAD_REQUEST: u16 = 400;

pub const INTERNAL_SERVER_ERROR: u16 = 500;

/// The body of a failed request.
pub struct ErrorResponse {
    pub error: String,
    pub code: String,
}

impl ErrorResponse {
    /// A request the client got wrong: status 400.
    pub fn client(msg: String, code: &str) -> (r: (u16, ErrorResponse))
        ensures
            r.0 == BAD_REQUEST,
            r.1.error@ == msg@,
            r.1.code@ == code@,
    {
        (BAD_REQUEST, ErrorResponse { error: msg, code: String::from_str(code) })
    }

    /// A request that failed on the server: status 500.
    pub fn server(msg: String, code: &str) -> (r: (u16, ErrorResponse))
        ensures
            r.0 == INTERNAL_SERVER_ERROR,
            r.1.error@ == msg@,
            r.1.code@ == code@,
    {
        (INTERNAL_SERVER_ERROR, ErrorResponse { error: msg, code: String::from_str(code) })
    }
}

pub struct HealthResponse {
    pub status: String,
    pub version: String,
}

/// The answer to a health probe.
pub fn health() -> (r: HealthResponse)
    ensures
        r.status@ == "ok"@,
        r.version@ == "0.1.0"@,
{
    HealthResponse { status: String::from_str("ok"), version: String::from_str("0.1.0") }
}

pub struct StatusResponse {
    pub bound: bool,
    pub project_name: Option<String>,
    pub branch: Option<String>,
    pub remote: Option<String>,
    pub latest_incoming: Option<String>,
}

pub open spec fn opt_str(s: Option<String>) -> Option<Seq<char>> {
    match s {
        Some(x) => Some(x@),
        None => None,
    }
}

/// The status of the API: unbound, or the bound project with its current
/// branch and newest incoming export (as far as they could be found).
pub fn status(config: Option<&ProjectConfig>, branch: Option<String>, latest_incoming: Option<String>) -> (r:
    StatusResponse)
    ensures
        match config {
            None => !r.bound && r.project_name is None && r.branch is None && r.remote is None
                && r.latest_incoming is None,
            Some(c) => {
                &&& r.bound
                &&& opt_str(r.project_name) == Some(c.project_name@)
                &&& opt_str(r.branch) == opt_str(branch)
                &&& opt_str(r.remote) == opt_str(c.remote_url)
                &&& opt_str(r.latest_incoming) == opt_str(latest_incoming)
            },
        },
{
    match config {
        None => StatusResponse {
            bound: false,
            project_name: None,
            branch: None,
            remote: None,
            latest_incoming: None,
        },
        Some(c) => StatusResponse {
            bound: true,
            project_name: Some(c.project_name.clone()),
            branch,
            remote: match &c.remote_url {
                Some(u) => Some(u.clone()),
                None => None,
            },
            latest_incoming,
        },
    }
}

/// A commit as an entry of the history.
pub open spec fn summary_of(c: CommitInfo) -> (Seq<char>, Seq<char>, Seq<char>, Seq<char>, usize) {
    (c.hash@, c.message@, c.author@, c.timestamp@, 0)
}

pub open spec fn summary_view(s: SnapshotSummary) -> (Seq<char>, Seq<char>, Seq<char>, Seq<char>, usize) {
    (s.snapshot_id@, s.message@, s.author@, s.timestamp@, s.change_count)
}

/// The history: one entry per commit, in the same order, identified by the
/// commit hash, with no change count.
pub fn snapshot_summaries(commits: Vec<CommitInfo>) -> (r: Vec<SnapshotSummary>)
    ensures
        r@.map_values(|s: SnapshotSummary| summary_view(s)) == commits@.map_values(
            |c: CommitInfo| summary_of(c),
        ),
        entries_follow_commits(r@, commits@),
{
    let mut out: Vec<SnapshotSummary> = Vec::new();
    let mut i: usize = 0;
    while i < commits.len()
        invariant
            i <= commits.len(),
            out@.map_values(|s: SnapshotSummary| summary_view(s)) == commits@.map_values(
                |c: CommitInfo| summary_of(c),
            ).take(i as int),
        decreases commits.len() - i,
    {
        let c = &commits[i];
        let s = SnapshotSummary {
            snapshot_id: c.hash.clone(),
            message: c.message.clone(),
            author: c.author.clone(),
            timestamp: c.timestamp.clone(),
            change_count: 0,
        };
        let ghost before = out@.map_values(|s: SnapshotSummary| summary_view(s));
        out.push(s);
        assert(out@.map_values(|s: SnapshotSummary| summary_view(s)) =~= before.push(summary_view(s)));
        assert(out@.map_values(|s: SnapshotSummary| summary_view(s)) =~= commits@.map_values(
            |c: CommitInfo| summary_of(c),
        ).take(i + 1));
        i = i + 1;
    }
    assert(commits@.map_values(|c: CommitInfo| summary_of(c)).take(commits.len() as int)
        =~= commits@.map_values(|c: CommitInfo| summary_of(c)));
    proof {
        lemma_history_entries_follow_commits(out@, commits@);
    }
    out
}

/// Entry `i` of a history is commit `i`: identified by the commit's hash,
/// with the commit's message, author and time stamp, and no change count.
pub open spec fn entries_follow_commits(entries: Seq<SnapshotSummary>, commits: Seq<CommitInfo>) -> bool {
    &&& entries.len() == commits.len()
    &&& forall|i: int|
        0 <= i < entries.len() ==> {
            &&& #[trigger] entries[i].snapshot_id@ == commits[i].hash@
            &&& entries[i].message@ == commits[i].message@
            &&& entries[i].author@ == commits[i].author@
            &&& entries[i].timestamp@ == commits[i].timestamp@
            &&& entries[i].change_count == 0
        }
}

/// A history built from a commit log has one entry per commit, in order, and
/// each entry carries its own commit's message as its message and its own
/// commit's time stamp as its time stamp (not one in place of the other).
pub proof fn lemma_history_entries_follow_commits(entries: Seq<SnapshotSummary>, commits: Seq<CommitInfo>)
    requires
        entries.map_values(|s: SnapshotSummary| summary_view(s)) == commits.map_values(
            |c: CommitInfo| summary_of(c),
        ),
    ensures
        entries_follow_commits(entries, commits),
{
    assert(entries.len() == entries.map_values(|s: SnapshotSummary| summary_view(s)).len());
    assert forall|i: int| 0 <= i < entries.len() implies {
        &&& #[trigger] entries[i].snapshot_id@ == commits[i].hash@
        &&& entries[i].message@ == commits[i].message@
        &&& entries[i].author@ == commits[i].author@
        &&& entries[i].timestamp@ == commits[i].timestamp@
        &&& entries[i].change_count == 0
    } by {
        assert(entries.map_values(|s: SnapshotSummary| summary_view(s))[i] == summary_view(entries[i]));
        assert(commits.map_values(|c: CommitInfo| summary_of(c))[i] == summary_of(commits[i]));
    }
}

pub struct HistoryResponse {
    pub snapshots: Vec<SnapshotSummary>,
}

/// The history of a project from its commit log.
pub fn history(commits: Vec<CommitInfo>) -> (r: HistoryResponse)
    ensures
        r.snapshots@.map_values(|s: SnapshotSummary| summary_view(s)) == commits@.map_values(
            |c: CommitInfo| summary_of(c),
        ),
        entries_follow_commits(r.snapshots@, commits@),
{
    HistoryResponse { snapshots: snapshot_summaries(commits) }
}

pub struct PushResponse {
    pub success: bool,
    pub error: Option<String>,
}

/// The answer to a push: success, or the failure's message.
pub fn push_response(outcome: Result<(), String>) -> (r: PushResponse)
    ensures
        match outcome {
            Ok(_) => r.success && r.error is None,
            Err(msg) => !r.success && opt_str(r.error) == Some(msg@),
        },
{
    match outcome {
        Ok(_) => PushResponse { success: true, error: None },
        Err(msg) => PushResponse { success: false, error: Some(msg) },
    }
}

pub struct PullResponse {
    pub result: String,
    pub commits_pulled: Option<usize>,
    pub local_ahead: Option<usize>,
    pub remote_ahead: Option<usize>,
}

/// The answer to a pull: what happened, with the counts that belong to it.
pub fn pull_response(result: &PullResult) -> (r: PullResponse)
    ensures
        match *result {
            PullResult::UpToDate => r.result@ == "up_to_date"@ && r.commits_pulled is None
                && r.local_ahead is None && r.remote_ahead is None,
            PullResult::Updated { commits_pulled } => r.result@ == "updated"@ && r.commits_pulled
                == Some(commits_pulled) && r.local_ahead is None && r.remote_ahead is None,
            PullResult::Diverged { local_ahead, remote_ahead } => r.result@ == "diverged"@
                && r.commits_pulled is None && r.local_ahead == Some(local_ahead) && r.remote_ahead
                == Some(remote_ahead),
        },
{
    match result {
        PullResult::UpToDate => PullResponse {
            result: String::from_str("up_to_date"),
            commits_pulled: None,
            local_ahead: None,
            remote_ahead: None,
        },
        PullResult::Updated { commits_pulled } => PullResponse {
            result: String::from_str("updated"),
            commits_pulled: Some(*commits_pulled),
            local_ahead: None,
            remote_ahead: None,
        },
        PullResult::Diverged { local_ahead, remote_ahead } => PullResponse {
            result: String::from_str("diverged"),
            commits_pulled: None,
            local_ahead: Some(*local_ahead),
            remote_ahead: Some(*remote_ahead),
        },
    }
}

/// Which of git and git-lfs are installed, with their versions.
pub struct DepsStatus {
    pub git: Option<String>,
    pub git_lfs: Option<String>,
}

pub fn check_dependencies(git: Result<String, GitError>, git_lfs: Result<String, GitError>) -> (r:
    DepsStatus)
    ensures
        opt_str(r.git) == match git {
            Ok(v) => Some(v@),
            Err(_) => None::<Seq<char>>,
        },
        opt_str(r.git_lfs) == match git_lfs {
            Ok(v) => Some(v@),
            Err(_) => None::<Seq<char>>,
        },
{
    DepsStatus { git: git.ok(), git_lfs: git_lfs.ok() }
}

} // verus!
