//! The decisions of the git-backed store: what the output of git commands
//! means, and which command comes next. Running git is left to the caller.

use vstd::prelude::*;
use crate::text::{
    concat3, lines, lines_of, lossy_string, parse_usize, parsed_usize, split_n, split_n_at, string_views,
    trim, trimmed, utf8_lossy,
};

verus! {

/// The `.gitattributes` that routes audio and project files through Git LFS.
pub const GITATTRIBUTES_CONTENT: &'static str = "*.dawproject filter=lfs diff=lfs merge=lfs -text\n*.wav filter=lfs diff=lfs merge=lfs -text\n*.aif filter=lfs diff=lfs merge=lfs -text\n*.aiff filter=lfs diff=lfs merge=lfs -text\n*.flac filter=lfs diff=lfs merge=lfs -text\n*.mp3 filter=lfs diff=lfs merge=lfs -text\n*.ogg filter=lfs diff=lfs merge=lfs -text\n*.zip filter=lfs diff=lfs merge=lfs -text\n*.bwproject filter=lfs diff=lfs merge=lfs -text\n";

pub enum GitError {
    NotInstalled,
    LfsNotInstalled,
    CommandFailed(String),
    Diverged,
    RemoteNotSet,
}

pub struct GitStatus {
    pub branch: String,
    pub staged: usize,
    pub unstaged: usize,
    pub untracked: usize,
    pub clean: bool,
}

pub struct CommitInfo {
    pub hash: String,
    pub author: String,
    pub timestamp: String,
    pub message: String,
}

pub enum PullResult {
    UpToDate,
    Updated { commits_pulled: usize },
    Diverged { local_ahead: usize, remote_ahead: usize },
}

/// The attributes file written into every repository.
pub fn gitattributes_content() -> (r: &'static str)
    ensures
        r@ == GITATTRIBUTES_CONTENT@,
{
    GITATTRIBUTES_CONTENT
}

/// What a finished git command yields: its trimmed standard output on
/// success, else a failure carrying its trimmed standard error.
pub fn command_result(success: bool, stdout: &[u8], stderr: &[u8]) -> (r: Result<String, GitError>)
    ensures
        success ==> (r matches Ok(out) && out@ == trimmed(utf8_lossy(stdout@))),
        !success ==> (r matches Err(GitError::CommandFailed(msg)) && msg@ == trimmed(
            utf8_lossy(stderr@),
        )),
{
    if !success {
        let err = lossy_string(stderr);
        Err(GitError::CommandFailed(String::from_str(trim(err.as_str()))))
    } else {
        let out = lossy_string(stdout);
        Ok(String::from_str(trim(out.as_str())))
    }
}

/// What a `--version` probe yields: the trimmed output, or `missing` when the
/// tool did not succeed.
pub fn tool_version(success: bool, stdout: &[u8], missing: GitError) -> (r: Result<String, GitError>)
    ensures
        success ==> (r matches Ok(out) && out@ == trimmed(utf8_lossy(stdout@))),
        !success ==> r == Err::<String, GitError>(missing),
{
    if !success {
        Err(missing)
    } else {
        let out = lossy_string(stdout);
        Ok(String::from_str(trim(out.as_str())))
    }
}

/// A `git lfs install` failure means that LFS is missing.
pub fn init_lfs(outcome: Result<String, GitError>) -> (r: Result<(), GitError>)
    ensures
        match outcome {
            Ok(_) => r is Ok,
            Err(GitError::NotInstalled) => r matches Err(GitError::LfsNotInstalled),
            Err(GitError::CommandFailed(_)) => r matches Err(GitError::LfsNotInstalled),
            Err(e) => r == Err::<(), GitError>(e),
        },
{
    match outcome {
        Ok(_) => Ok(()),
        Err(GitError::NotInstalled) => Err(GitError::LfsNotInstalled),
        Err(GitError::CommandFailed(_)) => Err(GitError::LfsNotInstalled),
        Err(e) => Err(e),
    }
}

/// `git remote` lists a remote named `origin`.
pub open spec fn lists_origin(remotes: Seq<char>) -> bool {
    lines_of(remotes).contains("origin"@)
}

fn has_origin(remotes: &str) -> (r: bool)
    ensures
        r == lists_origin(remotes@),
{
    let names = lines(remotes);
    let ghost views = string_views(names@);
    let origin = String::from_str("origin");
    let mut i: usize = 0;
    while i < names.len()
        invariant
            i <= names.len(),
            views == string_views(names@),
            views == lines_of(remotes@),
            origin@ == "origin"@,
            forall|k: int| 0 <= k < i ==> views[k] != "origin"@,
        decreases names.len() - i,
    {
        if names[i] == origin {
            assert(views[i as int] == names@[i as int]@);
            assert(views[i as int] == "origin"@);
            assert(views.contains("origin"@));
            return true;
        }
        i = i + 1;
    }
    assert(!views.contains("origin"@));
    false
}

/// Pushing and fetching need a remote named `origin`.
pub fn ensure_remote_set(remotes: &str) -> (r: Result<(), GitError>)
    ensures
        lists_origin(remotes@) ==> r is Ok,
        !lists_origin(remotes@) ==> r matches Err(GitError::RemoteNotSet),
{
    if has_origin(remotes) {
        Ok(())
    } else {
        Err(GitError::RemoteNotSet)
    }
}

/// The arguments of the `git remote` call that points `origin` at
/// `remote_url`: `set-url` when `origin` exists, `add` otherwise.
pub fn set_remote(remotes: &str, remote_url: &str) -> (args: Vec<String>)
    ensures
        string_views(args@) == seq![
            "remote"@,
            if lists_origin(remotes@) {
                "set-url"@
            } else {
                "add"@
            },
            "origin"@,
            remote_url@,
        ],
{
    let verb = if has_origin(remotes) {
        String::from_str("set-url")
    } else {
        String::from_str("add")
    };
    let mut args: Vec<String> = Vec::new();
    args.push(String::from_str("remote"));
    args.push(verb);
    args.push(String::from_str("origin"));
    args.push(String::from_str(remote_url));
    assert(string_views(args@) =~= seq![
        "remote"@,
        if lists_origin(remotes@) {
            "set-url"@
        } else {
            "add"@
        },
        "origin"@,
        remote_url@,
    ]);
    args
}

/// The arguments of the commit made for every saved version.
pub fn commit_args(message: &str) -> (args: Vec<String>)
    ensures
        string_views(args@) == seq![
            "-c"@,
            "user.name=Bitwig Versions"@,
            "-c"@,
            "user.email=bitwig@versions.local"@,
            "commit"@,
            "-m"@,
            message@,
        ],
{
    let mut args: Vec<String> = Vec::new();
    args.push(String::from_str("-c"));
    args.push(String::from_str("user.name=Bitwig Versions"));
    args.push(String::from_str("-c"));
    args.push(String::from_str("user.email=bitwig@versions.local"));
    args.push(String::from_str("commit"));
    args.push(String::from_str("-m"));
    args.push(String::from_str(message));
    assert(string_views(args@) =~= seq![
        "-c"@,
        "user.name=Bitwig Versions"@,
        "-c"@,
        "user.email=bitwig@versions.local"@,
        "commit"@,
        "-m"@,
        message@,
    ]);
    args
}

// ---------------------------------------------------------------------------
// `git status --porcelain`.
// ---------------------------------------------------------------------------

/// A porcelain line (as UTF-8 bytes) of an untracked file: it starts with `??`.
pub open spec fn is_untracked_line(b: Seq<u8>) -> bool {
    b.len() >= 2 && b[0] == 63u8 && b[1] == 63u8
}

/// A porcelain line with a staged change: the index column is not blank.
pub open spec fn is_staged_line(b: Seq<u8>) -> bool {
    !is_untracked_line(b) && b.len() > 0 && b[0] != 32u8
}

/// A porcelain line with an unstaged change: the work-tree column is not blank.
pub open spec fn is_unstaged_line(b: Seq<u8>) -> bool {
    !is_untracked_line(b) && b.len() > 1 && b[1] != 32u8
}

/// How many of the first `n` lines satisfy `p` (on their UTF-8 bytes).
pub open spec fn count_lines(ls: Seq<Seq<char>>, p: spec_fn(Seq<u8>) -> bool, n: int) -> nat
    decreases n,
{
    if n <= 0 {
        0
    } else {
        count_lines(ls, p, n - 1) + if p(vstd::utf8::encode_utf8(ls[n - 1])) {
            1nat
        } else {
            0nat
        }
    }
}

pub open spec fn count_where(porcelain: Seq<char>, p: spec_fn(Seq<u8>) -> bool) -> nat {
    count_lines(lines_of(porcelain), p, lines_of(porcelain).len() as int)
}

proof fn lemma_count_lines_prefix(ls: Seq<Seq<char>>, l: Seq<char>, p: spec_fn(Seq<u8>) -> bool, n: int)
    requires
        n <= ls.len(),
    ensures
        count_lines(ls.push(l), p, n) == count_lines(ls, p, n),
    decreases n,
{
    if n > 0 {
        lemma_count_lines_prefix(ls, l, p, n - 1);
        assert(ls.push(l)[n - 1] == ls[n - 1]);
    }
}

/// How one more line of `git status --porcelain` is counted. A line marks an
/// untracked file when its UTF-8 bytes start with `??`. Otherwise it counts
/// one staged change when its first (index) column is not a blank, whatever
/// letter stands there (`M`, `A`, `D`, `R`, ...), and one unstaged change
/// when its second (work-tree) column is not a blank.
pub proof fn lemma_porcelain_line_counts(ls: Seq<Seq<char>>, l: Seq<char>)
    ensures
        ({
            let b = vstd::utf8::encode_utf8(l);
            let untracked = b.len() >= 2 && b[0] == 63u8 && b[1] == 63u8;
            let n = ls.len() as int;
            &&& count_lines(ls.push(l), |b: Seq<u8>| is_untracked_line(b), n + 1) == count_lines(
                ls,
                |b: Seq<u8>| is_untracked_line(b),
                n,
            ) + if untracked {
                1nat
            } else {
                0nat
            }
            &&& count_lines(ls.push(l), |b: Seq<u8>| is_staged_line(b), n + 1) == count_lines(
                ls,
                |b: Seq<u8>| is_staged_line(b),
                n,
            ) + if !untracked && b.len() > 0 && b[0] != 32u8 {
                1nat
            } else {
                0nat
            }
            &&& count_lines(ls.push(l), |b: Seq<u8>| is_unstaged_line(b), n + 1) == count_lines(
                ls,
                |b: Seq<u8>| is_unstaged_line(b),
                n,
            ) + if !untracked && b.len() > 1 && b[1] != 32u8 {
                1nat
            } else {
                0nat
            }
        }),
{
    let n = ls.len() as int;
    lemma_count_lines_prefix(ls, l, |b: Seq<u8>| is_untracked_line(b), n);
    lemma_count_lines_prefix(ls, l, |b: Seq<u8>| is_staged_line(b), n);
    lemma_count_lines_prefix(ls, l, |b: Seq<u8>| is_unstaged_line(b), n);
    assert(ls.push(l)[n] == l);
}

/// The status of a work tree on `branch` from its porcelain listing.
pub fn get_status(branch: String, porcelain: &str) -> (st: GitStatus)
    ensures
        st.branch == branch,
        st.untracked == count_where(porcelain@, |b: Seq<u8>| is_untracked_line(b)),
        st.staged == count_where(porcelain@, |b: Seq<u8>| is_staged_line(b)),
        st.unstaged == count_where(porcelain@, |b: Seq<u8>| is_unstaged_line(b)),
        st.clean == (st.staged == 0 && st.unstaged == 0 && st.untracked == 0),
{
    let ls = lines(porcelain);
    let ghost views = string_views(ls@);
    let ghost pu = |b: Seq<u8>| is_untracked_line(b);
    let ghost ps = |b: Seq<u8>| is_staged_line(b);
    let ghost pn = |b: Seq<u8>| is_unstaged_line(b);
    let mut staged: usize = 0;
    let mut unstaged: usize = 0;
    let mut untracked: usize = 0;
    let mut i: usize = 0;
    while i < ls.len()
        invariant
            i <= ls.len(),
            views == string_views(ls@),
            pu == (|b: Seq<u8>| is_untracked_line(b)),
            ps == (|b: Seq<u8>| is_staged_line(b)),
            pn == (|b: Seq<u8>| is_unstaged_line(b)),
            untracked == count_lines(views, pu, i as int),
            staged == count_lines(views, ps, i as int),
            unstaged == count_lines(views, pn, i as int),
            untracked <= i,
            staged <= i,
            unstaged <= i,
        decreases ls.len() - i,
    {
        let b = ls[i].as_str().as_bytes();
        assert(b@ == vstd::utf8::encode_utf8(views[i as int]));
        if b.len() >= 2 && b[0] == 63u8 && b[1] == 63u8 {
            untracked = untracked + 1;
        } else {
            if b.len() > 0 && b[0] != 32u8 {
                staged = staged + 1;
            }
            if b.len() > 1 && b[1] != 32u8 {
                unstaged = unstaged + 1;
            }
        }
        i = i + 1;
    }
    let clean = staged == 0 && unstaged == 0 && untracked == 0;
    GitStatus { branch, staged, unstaged, untracked, clean }
}

// ---------------------------------------------------------------------------
// `git log --pretty=format:%H\t%an\t%aI\t%s`.
// ---------------------------------------------------------------------------

/// The commit described by one log line, if it has all four fields.
pub open spec fn commit_fields(line: Seq<char>) -> Option<Seq<Seq<char>>> {
    let parts = split_n(line, 4, '\t');
    if parts.len() == 4 {
        Some(parts)
    } else {
        None
    }
}

/// The field lists of the first `n` log lines that have all four fields.
pub open spec fn log_entries(ls: Seq<Seq<char>>, n: int) -> Seq<Seq<Seq<char>>>
    decreases n,
{
    if n <= 0 {
        Seq::empty()
    } else {
        log_entries(ls, n - 1) + match commit_fields(ls[n - 1]) {
            Some(f) => seq![f],
            None => Seq::empty(),
        }
    }
}

pub open spec fn commit_view(c: CommitInfo) -> Seq<Seq<char>> {
    seq![c.hash@, c.author@, c.timestamp@, c.message@]
}

/// The commits of a log listing, newest first as git prints them: hash,
/// author, timestamp and subject, split at the first three tabs; lines
/// with fewer fields are skipped.
pub fn list_commits(log: &str) -> (r: Vec<CommitInfo>)
    ensures
        r@.map_values(|c: CommitInfo| commit_view(c)) == log_entries(
            lines_of(log@),
            lines_of(log@).len() as int,
        ),
{
    let ls = lines(log);
    let ghost views = string_views(ls@);
    let mut out: Vec<CommitInfo> = Vec::new();
    let mut i: usize = 0;
    while i < ls.len()
        invariant
            i <= ls.len(),
            views == string_views(ls@),
            out@.map_values(|c: CommitInfo| commit_view(c)) == log_entries(views, i as int),
        decreases ls.len() - i,
    {
        let parts = split_n_at(ls[i].as_str(), 4, '\t');
        assert(views[i as int] == ls@[i as int]@);
        let ghost before = out@.map_values(|c: CommitInfo| commit_view(c));
        if parts.len() == 4 {
            let c = CommitInfo {
                hash: parts[0].clone(),
                author: parts[1].clone(),
                timestamp: parts[2].clone(),
                message: parts[3].clone(),
            };
            assert(commit_view(c) =~= string_views(parts@));
            out.push(c);
            assert(out@.map_values(|c: CommitInfo| commit_view(c)) =~= before.push(commit_view(c)));
        }
        i = i + 1;
    }
    out
}

// ---------------------------------------------------------------------------
// Fast-forward pulls.
// ---------------------------------------------------------------------------

/// What to do after fetching, given the local head, the remote head and
/// their merge base.
pub enum PullPlan {
    /// Nothing to pull: the heads agree, or the remote is behind.
    UpToDate,
    /// The local head is behind: pull with `--ff-only`, then count.
    FastForward,
    /// Both sides have commits of their own: count them and report.
    Diverged,
}

pub fn pull_ff_only(local_ref: &str, remote_ref: &str, base: &str) -> (plan: PullPlan)
    ensures
        local_ref@ == remote_ref@ ==> plan is UpToDate,
        local_ref@ != remote_ref@ && local_ref@ == base@ ==> plan is FastForward,
        local_ref@ != remote_ref@ && local_ref@ != base@ && remote_ref@ == base@ ==> plan is UpToDate,
        local_ref@ != remote_ref@ && local_ref@ != base@ && remote_ref@ != base@ ==> plan is Diverged,
{
    let l = String::from_str(local_ref);
    let r = String::from_str(remote_ref);
    let b = String::from_str(base);
    if l == r {
        PullPlan::UpToDate
    } else if l == b {
        PullPlan::FastForward
    } else if r == b {
        PullPlan::UpToDate
    } else {
        PullPlan::Diverged
    }
}

/// A commit count from `git rev-list --count`, or 0 where the command failed
/// or printed no number.
pub fn parse_count(outcome: &Result<String, GitError>) -> (n: usize)
    ensures
        match outcome {
            Ok(s) => n == match parsed_usize(s@) {
                Some(v) => v,
                None => 0,
            },
            Err(_) => n == 0,
        },
{
    match outcome {
        Ok(s) => match parse_usize(s.as_str()) {
            Some(v) => v,
            None => 0,
        },
        Err(_) => 0,
    }
}

/// The number a `git rev-list --count` outcome reads as: 0 where the
/// command failed or printed no number.
pub open spec fn count_of(o: Result<Seq<char>, GitError>) -> usize {
    match o {
        Ok(s) => match parsed_usize(s) {
            Some(v) => v,
            None => 0,
        },
        Err(_) => 0,
    }
}

/// The outcome of a git command, its output taken as characters.
pub open spec fn outcome_view(o: Result<String, GitError>) -> Result<Seq<char>, GitError> {
    match o {
        Ok(s) => Ok(s@),
        Err(e) => Err(e),
    }
}

/// Where a fast-forward pull stands: which git command was issued last, with
/// what the commands before it yielded.
pub enum PullState {
    /// `git remote` was run, to check that `origin` exists.
    CheckRemote,
    /// `git remote` was run again, as fetching checks for `origin` itself.
    CheckRemoteForFetch,
    /// `git fetch origin` was run.
    Fetch,
    /// `git rev-parse HEAD` was run.
    LocalHead,
    /// `git rev-parse origin/<branch>` was run, after the local head.
    RemoteHead { local: String },
    /// `git merge-base HEAD origin/<branch>` was run, after both heads.
    MergeBase { local: String, remote: String },
    /// `git pull --ff-only origin <branch>` was run.
    FastForward { local: String, remote: String },
    /// The pulled commits were counted.
    CountPulled,
    /// The local commits not on the remote were counted.
    CountLocalAhead,
    /// The remote commits not on the local branch were counted, after the
    /// local ones.
    CountRemoteAhead { local_ahead: usize },
}

pub enum PullStateView {
    CheckRemote,
    CheckRemoteForFetch,
    Fetch,
    LocalHead,
    RemoteHead { local: Seq<char> },
    MergeBase { local: Seq<char>, remote: Seq<char> },
    FastForward { local: Seq<char>, remote: Seq<char> },
    CountPulled,
    CountLocalAhead,
    CountRemoteAhead { local_ahead: usize },
}

impl View for PullState {
    type V = PullStateView;

    open spec fn view(&self) -> PullStateView {
        match self {
            PullState::CheckRemote => PullStateView::CheckRemote,
            PullState::CheckRemoteForFetch => PullStateView::CheckRemoteForFetch,
            PullState::Fetch => PullStateView::Fetch,
            PullState::LocalHead => PullStateView::LocalHead,
            PullState::RemoteHead { local } => PullStateView::RemoteHead { local: local@ },
            PullState::MergeBase { local, remote } => PullStateView::MergeBase {
                local: local@,
                remote: remote@,
            },
            PullState::FastForward { local, remote } => PullStateView::FastForward {
                local: local@,
                remote: remote@,
            },
            PullState::CountPulled => PullStateView::CountPulled,
            PullState::CountLocalAhead => PullStateView::CountLocalAhead,
            PullState::CountRemoteAhead { local_ahead } => PullStateView::CountRemoteAhead {
                local_ahead: *local_ahead,
            },
        }
    }
}

/// What a pull does next: run a git command (with these arguments) and come
/// back in the given state, or finish with a result.
pub enum PullNext {
    Run(PullState, Vec<String>),
    Done(Result<PullResult, GitError>),
}

pub enum PullNextView {
    Run(PullStateView, Seq<Seq<char>>),
    Done(Result<PullResult, GitError>),
}

impl View for PullNext {
    type V = PullNextView;

    open spec fn view(&self) -> PullNextView {
        match self {
            PullNext::Run(s, args) => PullNextView::Run(s@, string_views(args@)),
            PullNext::Done(r) => PullNextView::Done(*r),
        }
    }
}

/// The remote-tracking branch of `branch`.
pub open spec fn tracking(branch: Seq<char>) -> Seq<char> {
    "origin/"@ + branch
}

/// After `git remote` printed `out`: go on with `then` when `origin` is
/// listed, else stop with `RemoteNotSet`.
pub open spec fn after_remote_check(out: Seq<char>, then: PullNextView) -> PullNextView {
    if lists_origin(out) {
        then
    } else {
        PullNextView::Done(Err(GitError::RemoteNotSet))
    }
}

/// The step of a fast-forward pull of `branch`: given where the pull stands
/// and the outcome of the command issued last, what it does next.
///
/// A failed command ends the pull with its error, except the commit counts,
/// which read as 0. Without `origin` the pull stops with `RemoteNotSet`
/// before fetching. After fetching it reads the local head, the remote head
/// and their merge base: equal heads, or a remote head that is the merge
/// base, give `UpToDate`; a local head that is the merge base is pulled with
/// `--ff-only` and the pulled commits are counted; otherwise the commits on
/// each side are counted and reported as `Diverged`.
pub open spec fn pull_next_of(
    branch: Seq<char>,
    state: PullStateView,
    o: Result<Seq<char>, GitError>,
) -> PullNextView {
    match state {
        PullStateView::CountPulled => PullNextView::Done(
            Ok(PullResult::Updated { commits_pulled: count_of(o) }),
        ),
        PullStateView::CountLocalAhead => PullNextView::Run(
            PullStateView::CountRemoteAhead { local_ahead: count_of(o) },
            seq!["rev-list"@, "--count"@, "HEAD.."@ + tracking(branch)],
        ),
        PullStateView::CountRemoteAhead { local_ahead } => PullNextView::Done(
            Ok(PullResult::Diverged { local_ahead, remote_ahead: count_of(o) }),
        ),
        _ => match o {
            Err(e) => PullNextView::Done(Err(e)),
            Ok(out) => match state {
                PullStateView::CheckRemote => after_remote_check(
                    out,
                    PullNextView::Run(PullStateView::CheckRemoteForFetch, seq!["remote"@]),
                ),
                PullStateView::CheckRemoteForFetch => after_remote_check(
                    out,
                    PullNextView::Run(PullStateView::Fetch, seq!["fetch"@, "origin"@]),
                ),
                PullStateView::Fetch => PullNextView::Run(
                    PullStateView::LocalHead,
                    seq!["rev-parse"@, "HEAD"@],
                ),
                PullStateView::LocalHead => PullNextView::Run(
                    PullStateView::RemoteHead { local: out },
                    seq!["rev-parse"@, tracking(branch)],
                ),
                PullStateView::RemoteHead { local } => PullNextView::Run(
                    PullStateView::MergeBase { local, remote: out },
                    seq!["merge-base"@, "HEAD"@, tracking(branch)],
                ),
                PullStateView::MergeBase { local, remote } => if local == remote {
                    PullNextView::Done(Ok(PullResult::UpToDate))
                } else if local == out {
                    PullNextView::Run(
                        PullStateView::FastForward { local, remote },
                        seq!["pull"@, "--ff-only"@, "origin"@, branch],
                    )
                } else if remote == out {
                    PullNextView::Done(Ok(PullResult::UpToDate))
                } else {
                    PullNextView::Run(
                        PullStateView::CountLocalAhead,
                        seq!["rev-list"@, "--count"@, tracking(branch) + "..HEAD"@],
                    )
                },
                PullStateView::FastForward { local, remote } => PullNextView::Run(
                    PullStateView::CountPulled,
                    seq!["rev-list"@, "--count"@, local + ".."@ + remote],
                ),
                _ => PullNextView::Done(Ok(PullResult::UpToDate)),
            },
        },
    }
}

fn words1(a: &str) -> (v: Vec<String>)
    ensures
        string_views(v@) == seq![a@],
{
    let mut v: Vec<String> = Vec::new();
    v.push(String::from_str(a));
    assert(string_views(v@) =~= seq![a@]);
    v
}

fn words2(a: &str, b: &str) -> (v: Vec<String>)
    ensures
        string_views(v@) == seq![a@, b@],
{
    let mut v: Vec<String> = Vec::new();
    v.push(String::from_str(a));
    v.push(String::from_str(b));
    assert(string_views(v@) =~= seq![a@, b@]);
    v
}

fn words3(a: &str, b: &str, c: &str) -> (v: Vec<String>)
    ensures
        string_views(v@) == seq![a@, b@, c@],
{
    let mut v: Vec<String> = Vec::new();
    v.push(String::from_str(a));
    v.push(String::from_str(b));
    v.push(String::from_str(c));
    assert(string_views(v@) =~= seq![a@, b@, c@]);
    v
}

fn words4(a: &str, b: &str, c: &str, d: &str) -> (v: Vec<String>)
    ensures
        string_views(v@) == seq![a@, b@, c@, d@],
{
    let mut v: Vec<String> = Vec::new();
    v.push(String::from_str(a));
    v.push(String::from_str(b));
    v.push(String::from_str(c));
    v.push(String::from_str(d));
    assert(string_views(v@) =~= seq![a@, b@, c@, d@]);
    v
}

/// A fast-forward pull starts by checking for `origin` with `git remote`.
pub fn pull_begin() -> (r: (PullState, Vec<String>))
    ensures
        r.0@ == PullStateView::CheckRemote,
        string_views(r.1@) == seq!["remote"@],
{
    (PullState::CheckRemote, words1("remote"))
}

/// The step of a fast-forward pull of `branch`, from where it stands and the
/// outcome of the command issued last.
pub fn pull_next(branch: &str, state: PullState, outcome: Result<String, GitError>) -> (next:
    PullNext)
    ensures
        next@ == pull_next_of(branch@, state@, outcome_view(outcome)),
{
    let ghost o = outcome_view(outcome);
    let ghost st = state@;
    match state {
        PullState::CountPulled => {
            let n = parse_count(&outcome);
            PullNext::Done(Ok(PullResult::Updated { commits_pulled: n }))
        },
        PullState::CountLocalAhead => {
            let n = parse_count(&outcome);
            let range = concat3("HEAD..", "origin/", branch);
            proof {
                assert(range@ == "HEAD.."@ + tracking(branch@));
            }
            PullNext::Run(
                PullState::CountRemoteAhead { local_ahead: n },
                words3("rev-list", "--count", range.as_str()),
            )
        },
        PullState::CountRemoteAhead { local_ahead } => {
            let n = parse_count(&outcome);
            PullNext::Done(Ok(PullResult::Diverged { local_ahead, remote_ahead: n }))
        },
        other => match outcome {
            Err(e) => PullNext::Done(Err(e)),
            Ok(out) => match other {
                PullState::CheckRemote => {
                    if has_origin(out.as_str()) {
                        PullNext::Run(PullState::CheckRemoteForFetch, words1("remote"))
                    } else {
                        PullNext::Done(Err(GitError::RemoteNotSet))
                    }
                },
                PullState::CheckRemoteForFetch => {
                    if has_origin(out.as_str()) {
                        PullNext::Run(PullState::Fetch, words2("fetch", "origin"))
                    } else {
                        PullNext::Done(Err(GitError::RemoteNotSet))
                    }
                },
                PullState::Fetch => PullNext::Run(PullState::LocalHead, words2("rev-parse", "HEAD")),
                PullState::LocalHead => {
                    let upstream = concat3("origin/", branch, "");
                    proof {
                        reveal_strlit("");
                        assert(upstream@ =~= tracking(branch@));
                    }
                    PullNext::Run(
                        PullState::RemoteHead { local: out },
                        words2("rev-parse", upstream.as_str()),
                    )
                },
                PullState::RemoteHead { local } => {
                    let upstream = concat3("origin/", branch, "");
                    proof {
                        reveal_strlit("");
                        assert(upstream@ =~= tracking(branch@));
                    }
                    PullNext::Run(
                        PullState::MergeBase { local, remote: out },
                        words3("merge-base", "HEAD", upstream.as_str()),
                    )
                },
                PullState::MergeBase { local, remote } => {
                    match pull_ff_only(local.as_str(), remote.as_str(), out.as_str()) {
                        PullPlan::UpToDate => PullNext::Done(Ok(PullResult::UpToDate)),
                        PullPlan::FastForward => PullNext::Run(
                            PullState::FastForward { local, remote },
                            words4("pull", "--ff-only", "origin", branch),
                        ),
                        PullPlan::Diverged => {
                            let range = concat3("origin/", branch, "..HEAD");
                            PullNext::Run(
                                PullState::CountLocalAhead,
                                words3("rev-list", "--count", range.as_str()),
                            )
                        },
                    }
                },
                PullState::FastForward { local, remote } => {
                    let range = concat3(local.as_str(), "..", remote.as_str());
                    PullNext::Run(PullState::CountPulled, words3("rev-list", "--count", range.as_str()))
                },
                _ => PullNext::Done(Ok(PullResult::UpToDate)),
            },
        },
    }
}

/// What a pull does to the repository: the only commands it runs that
/// change it are `git fetch origin`, run once `origin` was found, and
/// `git pull --ff-only`, run only when the two heads differ and the local
/// head is their merge base; every other command only reads. A pull never
/// ends with `Diverged` as its error (divergence is a result), unless a
/// command it ran failed with that error.
pub proof fn lemma_pull_changes_only_by_fetch_and_fast_forward(
    branch: Seq<char>,
    state: PullStateView,
    o: Result<Seq<char>, GitError>,
)
    ensures
        match pull_next_of(branch, state, o) {
            PullNextView::Run(_, args) => {
                &&& args.len() >= 1
                &&& args[0] == "remote"@ || args[0] == "fetch"@ || args[0] == "rev-parse"@ || args[0]
                    == "merge-base"@ || args[0] == "rev-list"@ || args[0] == "pull"@
                &&& args[0] == "fetch"@ ==> {
                    &&& state == PullStateView::CheckRemoteForFetch
                    &&& o is Ok
                    &&& lists_origin(o->Ok_0)
                }
                &&& args[0] == "pull"@ ==> {
                    &&& state matches PullStateView::MergeBase { local, remote }
                    &&& state->MergeBase_local != state->MergeBase_remote
                    &&& o == Ok::<Seq<char>, GitError>(state->MergeBase_local)
                }
            },
            PullNextView::Done(r) => r matches Err(GitError::Diverged) ==> o
                == Err::<Seq<char>, GitError>(GitError::Diverged),
        },
{
    reveal_strlit("remote");
    reveal_strlit("fetch");
    reveal_strlit("rev-parse");
    reveal_strlit("merge-base");
    reveal_strlit("rev-list");
    reveal_strlit("pull");
}

} // verus!
