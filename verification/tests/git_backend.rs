use bitwig_versions::git::{
    command_result, commit_args, ensure_remote_set, get_status, gitattributes_content, init_lfs,
    list_commits, parse_count, pull_begin, pull_ff_only, pull_next, set_remote, tool_version,
    GitError, PullNext, PullPlan, PullResult,
};

#[test]
fn gitattributes_routes_media_through_lfs() {
    let content = gitattributes_content();
    assert!(content.starts_with("*.dawproject filter=lfs diff=lfs merge=lfs -text\n"));
    assert!(content.ends_with("*.bwproject filter=lfs diff=lfs merge=lfs -text\n"));
    assert_eq!(content.lines().count(), 9);
}

#[test]
fn porcelain_status_is_counted() {
    let st = get_status("main".to_string(), "M  a.txt\n M b.txt\nMM c.txt\n?? d.txt\n?? e.txt");
    assert_eq!(st.branch, "main");
    assert_eq!(st.staged, 2);
    assert_eq!(st.unstaged, 2);
    assert_eq!(st.untracked, 2);
    assert!(!st.clean);
    let st = get_status("dev".to_string(), "");
    assert_eq!((st.staged, st.unstaged, st.untracked), (0, 0, 0));
    assert!(st.clean);
}

#[test]
fn log_lines_become_commits() {
    let log = "abc\tAlice\t2026-01-01T00:00:00+00:00\tinitial commit\nbroken line\ndef\tBob\t2026-01-02T00:00:00+00:00\tfix\ttabs";
    let commits = list_commits(log);
    assert_eq!(commits.len(), 2);
    assert_eq!(commits[0].hash, "abc");
    assert_eq!(commits[0].author, "Alice");
    assert_eq!(commits[0].message, "initial commit");
    assert_eq!(commits[1].hash, "def");
    assert_eq!(commits[1].message, "fix\ttabs");
}

#[test]
fn remote_handling() {
    assert!(ensure_remote_set("upstream\norigin").is_ok());
    assert!(matches!(ensure_remote_set("upstream"), Err(GitError::RemoteNotSet)));
    assert!(matches!(ensure_remote_set(""), Err(GitError::RemoteNotSet)));
    assert_eq!(set_remote("origin", "git@x:y.git"), vec!["remote", "set-url", "origin", "git@x:y.git"]);
    assert_eq!(set_remote("", "git@x:y.git"), vec!["remote", "add", "origin", "git@x:y.git"]);
}

#[test]
fn commit_identity() {
    assert_eq!(
        commit_args("Save version: x"),
        vec!["-c", "user.name=Bitwig Versions", "-c", "user.email=bitwig@versions.local", "commit", "-m", "Save version: x"]
    );
}

#[test]
fn lfs_errors_are_mapped() {
    assert!(init_lfs(Ok("done".to_string())).is_ok());
    assert!(matches!(init_lfs(Err(GitError::NotInstalled)), Err(GitError::LfsNotInstalled)));
    assert!(matches!(init_lfs(Err(GitError::CommandFailed("x".to_string()))), Err(GitError::LfsNotInstalled)));
    assert!(matches!(init_lfs(Err(GitError::RemoteNotSet)), Err(GitError::RemoteNotSet)));
    assert!(matches!(init_lfs(Err(GitError::Diverged)), Err(GitError::Diverged)));
}

#[test]
fn command_output_is_trimmed() {
    match command_result(true, b"  abc123\n", b"") {
        Ok(s) => assert_eq!(s, "abc123"),
        Err(_) => panic!("expected success"),
    }
    match command_result(false, b"", b"fatal: not a repo\n") {
        Err(GitError::CommandFailed(m)) => assert_eq!(m, "fatal: not a repo"),
        _ => panic!("expected failure"),
    }
    assert!(matches!(tool_version(false, b"", GitError::LfsNotInstalled), Err(GitError::LfsNotInstalled)));
    assert_eq!(tool_version(true, b"git version 2.43.0\n", GitError::NotInstalled).ok().as_deref(), Some("git version 2.43.0"));
}

#[test]
fn pull_plans() {
    assert!(matches!(pull_ff_only("a", "a", "a"), PullPlan::UpToDate));
    assert!(matches!(pull_ff_only("a", "b", "a"), PullPlan::FastForward));
    assert!(matches!(pull_ff_only("a", "b", "b"), PullPlan::UpToDate));
    assert!(matches!(pull_ff_only("a", "b", "c"), PullPlan::Diverged));
}

#[test]
fn counts_are_parsed() {
    assert_eq!(parse_count(&Ok("12".to_string())), 12);
    assert_eq!(parse_count(&Ok("+7".to_string())), 7);
    assert_eq!(parse_count(&Ok("x".to_string())), 0);
    assert_eq!(parse_count(&Ok("".to_string())), 0);
    assert_eq!(parse_count(&Ok("-1".to_string())), 0);
    assert_eq!(parse_count(&Err(GitError::NotInstalled)), 0);
}

#[test]
fn ill_formed_output_is_decoded_lossily() {
    match command_result(true, b"br\xffanch\n", b"") {
        Ok(s) => assert_eq!(s, "br\u{FFFD}anch"),
        Err(_) => panic!("expected success"),
    }
}

/// Runs a pull of `main` against scripted command outcomes; returns the
/// commands issued and the result.
fn run_pull(outcomes: Vec<Result<&str, GitError>>) -> (Vec<Vec<String>>, Result<PullResult, GitError>) {
    let (mut state, mut args) = pull_begin();
    let mut issued = Vec::new();
    for o in outcomes {
        issued.push(args.clone());
        match pull_next("main", state, o.map(|s| s.to_string())) {
            PullNext::Run(s, a) => {
                state = s;
                args = a;
            }
            PullNext::Done(r) => return (issued, r),
        }
    }
    panic!("the pull did not finish");
}

fn cmd(words: &[&str]) -> Vec<String> {
    words.iter().map(|w| w.to_string()).collect()
}

#[test]
fn pull_without_origin_stops_before_fetching() {
    let (issued, r) = run_pull(vec![Ok("upstream")]);
    assert_eq!(issued, vec![cmd(&["remote"])]);
    assert!(matches!(r, Err(GitError::RemoteNotSet)));
}

#[test]
fn pull_fast_forwards_and_counts() {
    let (issued, r) = run_pull(vec![
        Ok("origin"),
        Ok("upstream\norigin"),
        Ok(""),
        Ok("aaa"),
        Ok("bbb"),
        Ok("aaa"),
        Ok(""),
        Ok("3"),
    ]);
    assert_eq!(
        issued,
        vec![
            cmd(&["remote"]),
            cmd(&["remote"]),
            cmd(&["fetch", "origin"]),
            cmd(&["rev-parse", "HEAD"]),
            cmd(&["rev-parse", "origin/main"]),
            cmd(&["merge-base", "HEAD", "origin/main"]),
            cmd(&["pull", "--ff-only", "origin", "main"]),
            cmd(&["rev-list", "--count", "aaa..bbb"]),
        ]
    );
    assert!(matches!(r, Ok(PullResult::Updated { commits_pulled: 3 })));
}

#[test]
fn pull_reports_divergence_with_both_counts() {
    let (issued, r) = run_pull(vec![
        Ok("origin"),
        Ok("origin"),
        Ok(""),
        Ok("aaa"),
        Ok("bbb"),
        Ok("ccc"),
        Ok("not a number"),
        Ok("2"),
    ]);
    assert_eq!(issued[6], cmd(&["rev-list", "--count", "origin/main..HEAD"]));
    assert_eq!(issued[7], cmd(&["rev-list", "--count", "HEAD..origin/main"]));
    assert!(matches!(r, Ok(PullResult::Diverged { local_ahead: 0, remote_ahead: 2 })));
}

#[test]
fn pull_is_up_to_date_when_heads_agree_or_remote_is_behind() {
    let (_, r) = run_pull(vec![Ok("origin"), Ok("origin"), Ok(""), Ok("aaa"), Ok("aaa"), Ok("aaa")]);
    assert!(matches!(r, Ok(PullResult::UpToDate)));
    let (issued, r) = run_pull(vec![Ok("origin"), Ok("origin"), Ok(""), Ok("aaa"), Ok("bbb"), Ok("bbb")]);
    assert_eq!(issued.len(), 6);
    assert!(matches!(r, Ok(PullResult::UpToDate)));
}

#[test]
fn pull_stops_at_a_failed_command() {
    let (issued, r) = run_pull(vec![
        Ok("origin"),
        Ok("origin"),
        Err(GitError::CommandFailed("no network".to_string())),
    ]);
    assert_eq!(issued.len(), 3);
    match r {
        Err(GitError::CommandFailed(m)) => assert_eq!(m, "no network"),
        _ => panic!("expected the fetch failure"),
    }
}
