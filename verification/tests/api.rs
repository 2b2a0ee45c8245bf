use bitwig_versions::api::{
    check_dependencies, health, history, pull_response, push_response, status, ErrorResponse,
};
use bitwig_versions::git::{CommitInfo, GitError, PullResult};
use bitwig_versions::workspace::{new_project_config, PathStyle};

#[test]
fn health_is_ok() {
    let h = health();
    assert_eq!(h.status, "ok");
    assert_eq!(h.version, "0.1.0");
}

#[test]
fn unbound_and_bound_status() {
    let s = status(None, Some("main".to_string()), None);
    assert!(!s.bound);
    assert!(s.branch.is_none());
    let c = new_project_config(PathStyle::Unix, "/p", "Song", "now");
    let s = status(Some(&c), Some("main".to_string()), Some("x.dawproject".to_string()));
    assert!(s.bound);
    assert_eq!(s.project_name.as_deref(), Some("Song"));
    assert_eq!(s.branch.as_deref(), Some("main"));
    assert!(s.remote.is_none());
    assert_eq!(s.latest_incoming.as_deref(), Some("x.dawproject"));
}

#[test]
fn error_statuses() {
    let (code, body) = ErrorResponse::client("Project not bound".to_string(), "NOT_BOUND");
    assert_eq!(code, 400);
    assert_eq!(body.code, "NOT_BOUND");
    let (code, body) = ErrorResponse::server("boom".to_string(), "BIND_FAILED");
    assert_eq!(code, 500);
    assert_eq!(body.error, "boom");
}

#[test]
fn pull_and_push_answers() {
    let r = pull_response(&PullResult::Updated { commits_pulled: 3 });
    assert_eq!(r.result, "updated");
    assert_eq!(r.commits_pulled, Some(3));
    let r = pull_response(&PullResult::Diverged { local_ahead: 1, remote_ahead: 2 });
    assert_eq!(r.result, "diverged");
    assert_eq!((r.local_ahead, r.remote_ahead), (Some(1), Some(2)));
    assert_eq!(pull_response(&PullResult::UpToDate).result, "up_to_date");
    let p = push_response(Err("remote is not set".to_string()));
    assert!(!p.success);
    assert_eq!(p.error.as_deref(), Some("remote is not set"));
    assert!(push_response(Ok(())).success);
}

#[test]
fn history_keeps_commit_order() {
    let commits = vec![
        CommitInfo { hash: "h2".into(), author: "a".into(), timestamp: "t2".into(), message: "m2".into() },
        CommitInfo { hash: "h1".into(), author: "b".into(), timestamp: "t1".into(), message: "m1".into() },
    ];
    let h = history(commits);
    assert_eq!(h.snapshots.len(), 2);
    assert_eq!(h.snapshots[0].snapshot_id, "h2");
    assert_eq!(h.snapshots[1].author, "b");
    assert_eq!(h.snapshots[1].change_count, 0);
}

#[test]
fn dependency_probe() {
    let d = check_dependencies(Ok("git version 2".to_string()), Err(GitError::LfsNotInstalled));
    assert_eq!(d.git.as_deref(), Some("git version 2"));
    assert!(d.git_lfs.is_none());
}
