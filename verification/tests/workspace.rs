use bitwig_versions::model::SemanticIndex;
use bitwig_versions::workspace::{
    PathStyle, new_project_config_now, snapshot_manifest_now, stamped_config_now,
    generate_snapshot_id, get_incoming_exports_dir, get_snapshots_dir, hex6, join_path,
    latest_export, latest_snapshot, new_project_config, newest_export, previous_snapshot,
    project_config_file, snapshot_id_from, snapshot_manifest, stamped_config, snapshot_path_in_repo, version_commit_message,
    workspace_dirs,
};

#[test]
fn snapshot_id_matches_required_format() {
    let id = generate_snapshot_id();
    assert_eq!(id.len(), 22);

    let bytes = id.as_bytes();
    assert!(bytes[..8].iter().all(u8::is_ascii_digit));
    assert_eq!(bytes[8], b'-');
    assert!(bytes[9..15].iter().all(u8::is_ascii_digit));
    assert_eq!(bytes[15], b'-');
    assert!(bytes[16..].iter().all(u8::is_ascii_hexdigit));
}

#[test]
fn snapshot_id_format_check() {
    let id = generate_snapshot_id();
    let parts: Vec<_> = id.split('-').collect();
    assert_eq!(parts.len(), 3);
    assert_eq!(parts[0].len(), 8);
    assert_eq!(parts[1].len(), 6);
    assert_eq!(parts[2].len(), 6);
    assert!(parts[2].chars().all(|c| c.is_ascii_hexdigit()));
}

#[test]
fn hex6_pads_and_uses_lowercase() {
    assert_eq!(hex6(0), "000000");
    assert_eq!(hex6(0xab), "0000ab");
    assert_eq!(hex6(0xFF_FFFF), "ffffff");
    assert_eq!(hex6(0x12_34_5f), "12345f");
}

#[test]
fn workspace_paths() {
    assert_eq!(get_snapshots_dir(PathStyle::Unix, "/p/.bwversions"), "/p/.bwversions/snapshots");
    assert_eq!(get_incoming_exports_dir(PathStyle::Unix, "/p/.bwversions"), "/p/.bwversions/exports/incoming");
    assert_eq!(get_snapshots_dir(PathStyle::Unix, "/p/.bwversions/"), "/p/.bwversions/snapshots");
    assert_eq!(join_path(PathStyle::Unix, "", "x"), "x");
    assert_eq!(project_config_file(PathStyle::Unix, "bw"), "bw/project.json");
    assert_eq!(
        workspace_dirs(PathStyle::Unix, "bw"),
        vec!["bw/snapshots", "bw/exports/incoming", "bw/cache", "bw/tmp"]
    );
}

#[test]
fn new_config_is_on_main_without_remote() {
    let c = new_project_config(PathStyle::Unix, "/music/MySong", "MySong", "2026-04-25T00:00:00Z");
    assert_eq!(c.project_name, "MySong");
    assert_eq!(c.project_path, "/music/MySong");
    assert_eq!(c.bwversions_path, "/music/MySong/.bwversions");
    assert!(c.remote_url.is_none());
    assert_eq!(c.current_branch, "main");
    assert_eq!(c.created_at, "2026-04-25T00:00:00Z");
    assert_eq!(c.updated_at, c.created_at);
}

fn names(v: &[&str]) -> Vec<String> {
    v.iter().map(|s| s.to_string()).collect()
}

#[test]
fn manifest_records_digests_and_parent() {
    let parent = SemanticIndex {
        snapshot_id: "20260101-000000-abcdef".to_string(),
        project_name: "Song".to_string(),
        tempo: None,
        time_signature: None,
        tracks: Vec::new(),
        assets: Vec::new(),
        fingerprint: String::new(),
    };
    let m = snapshot_manifest(
        "20260102-000000-012345".to_string(),
        "mix".to_string(),
        "me".to_string(),
        "2026-01-02T00:00:00+00:00".to_string(),
        Some(&parent),
        b"project bytes",
        b"{}",
    );
    assert_eq!(m.snapshot_id, "20260102-000000-012345");
    assert_eq!(m.message, "mix");
    assert_eq!(m.author, "me");
    assert_eq!(m.parent_snapshot_id.as_deref(), Some("20260101-000000-abcdef"));
    assert_eq!(m.dawproject_hash, blake3::hash(b"project bytes").to_hex().to_string());
    assert_eq!(m.semantic_index_hash, blake3::hash(b"{}").to_hex().to_string());
    assert_ne!(m.dawproject_hash, m.semantic_index_hash);
    let first = snapshot_manifest(String::new(), String::new(), String::new(), String::new(), None, b"", b"");
    assert!(first.parent_snapshot_id.is_none());
    assert_eq!(first.dawproject_hash, "af1349b9f5f9a1a6a0404dea36dcc9499bcb25c9adc112b7cc9a93cae41f3262");
}

#[test]
fn commit_message_and_repo_paths() {
    assert_eq!(version_commit_message("first take"), "Save version: first take");
    assert_eq!(
        snapshot_path_in_repo("20260102-000000-012345", "project.dawproject"),
        ".bwversions/snapshots/20260102-000000-012345/project.dawproject"
    );
}

#[test]
fn newest_names_are_chosen() {
    let files = names(&["b.dawproject", "notes.txt", "c.dawproject", ".dawproject", "a.dawproject"]);
    assert_eq!(latest_export(&files), Some(2));
    assert_eq!(latest_export(&names(&["x.wav", ".dawproject"])), None);
    let dirs = names(&["20260101-000000-aaaaaa", "20260103-000000-cccccc", "20260102-000000-bbbbbb"]);
    assert_eq!(latest_snapshot(&dirs), Some(1));
    assert_eq!(latest_snapshot(&Vec::new()), None);
    assert_eq!(previous_snapshot(&dirs, "20260103-000000-cccccc"), Some(2));
    assert_eq!(previous_snapshot(&names(&["only"]), "only"), None);
}

#[test]
fn newest_export_by_time_takes_the_last_of_equal_times() {
    let files = vec![
        ("a.dawproject".to_string(), 5i128),
        ("z.wav".to_string(), 9i128),
        ("b.dawproject".to_string(), 7i128),
        ("c.dawproject".to_string(), 7i128),
        ("d.dawproject".to_string(), -3i128),
    ];
    assert_eq!(newest_export(&files), Some(3));
    assert_eq!(newest_export(&vec![("z.wav".to_string(), 1i128)]), None);
}

#[test]
fn saving_stamps_only_the_update_time() {
    let mut c = new_project_config(PathStyle::Unix, "/music/Song", "Song", "2026-01-01T00:00:00+00:00");
    c.remote_url = Some("git@example.com:me/song.git".to_string());
    let s = stamped_config(&c, "2026-02-02T10:00:00+00:00");
    assert_eq!(s.updated_at, "2026-02-02T10:00:00+00:00");
    assert_eq!(s.created_at, "2026-01-01T00:00:00+00:00");
    assert_eq!(s.project_name, "Song");
    assert_eq!(s.project_path, "/music/Song");
    assert_eq!(s.bwversions_path, "/music/Song/.bwversions");
    assert_eq!(s.remote_url.as_deref(), Some("git@example.com:me/song.git"));
    assert_eq!(s.current_branch, "main");
}

#[test]
fn snapshot_id_from_stamp_and_number() {
    assert_eq!(snapshot_id_from("20260425-101530", 0xab), "20260425-101530-0000ab");
    assert_eq!(snapshot_id_from("20260425-101530", 0xFF_FFFF), "20260425-101530-ffffff");
}

#[test]
fn windows_paths_use_backslashes() {
    assert_eq!(get_snapshots_dir(PathStyle::Windows, "C:\\p\\.bwversions"), "C:\\p\\.bwversions\\snapshots");
    assert_eq!(get_snapshots_dir(PathStyle::Windows, "C:\\p\\.bwversions\\"), "C:\\p\\.bwversions\\snapshots");
    assert_eq!(get_snapshots_dir(PathStyle::Windows, "C:/p/"), "C:/p/snapshots");
    assert_eq!(join_path(PathStyle::Windows, "C:", "x"), "C:x");
    assert_eq!(join_path(PathStyle::Windows, "1:", "x"), "1:\\x");
    assert_eq!(
        get_incoming_exports_dir(PathStyle::Windows, "D:\\song"),
        "D:\\song\\exports\\incoming"
    );
    assert_eq!(join_path(PathStyle::Unix, "a\\", "x"), "a\\/x");
}

fn is_rfc3339_utc(t: &str) -> bool {
    let b = t.as_bytes();
    let digits = |r: std::ops::Range<usize>| b[r].iter().all(u8::is_ascii_digit);
    if b.len() < 25 || !t.ends_with("+00:00") {
        return false;
    }
    let frac = &t[19..t.len() - 6];
    digits(0..4)
        && b[4] == b'-'
        && digits(5..7)
        && b[7] == b'-'
        && digits(8..10)
        && b[10] == b'T'
        && digits(11..13)
        && b[13] == b':'
        && digits(14..16)
        && b[16] == b':'
        && digits(17..19)
        && (frac.is_empty()
            || (frac.starts_with('.') && [4, 7, 10].contains(&frac.len()) && frac[1..].bytes().all(|c| c.is_ascii_digit())))
}

#[test]
fn now_stamps_are_rfc3339_utc() {
    let c = new_project_config_now(PathStyle::Unix, "/music/Song", "Song");
    assert!(is_rfc3339_utc(&c.created_at), "{}", c.created_at);
    assert_eq!(c.created_at, c.updated_at);
    assert_eq!(c.bwversions_path, "/music/Song/.bwversions");
    let s = stamped_config_now(&c);
    assert!(is_rfc3339_utc(&s.updated_at));
    assert_eq!(s.created_at, c.created_at);
    let m = snapshot_manifest_now("id".to_string(), "m".to_string(), "a".to_string(), None, b"", b"");
    assert!(is_rfc3339_utc(&m.timestamp));
}
