use bitwig_versions::conflicts::detect_conflicts;
use bitwig_versions::diff::diff_indexes;
use bitwig_versions::model::{
    AssetIndex, ChangeType, ClipIndex, DeviceIndex, NumberValue, SemanticIndex, TrackIndex,
};

fn num(v: f64) -> NumberValue {
    NumberValue { bits: v.to_bits(), text: v.to_string() }
}

fn mk_track(id: &str, name: &str) -> TrackIndex {
    TrackIndex {
        id: id.to_string(),
        name: name.to_string(),
        track_type: "track".to_string(),
        clips: vec![ClipIndex {
            id: format!("{id}-clip"),
            name: Some("clip".to_string()),
            start: num(0.0),
            length: num(4.0),
            fingerprint: format!("fp-{id}-c"),
        }],
        devices: vec![DeviceIndex {
            id: format!("{id}-dev"),
            name: "EQ".to_string(),
            device_type: "device".to_string(),
            fingerprint: format!("fp-{id}-d"),
        }],
        fingerprint: format!("fp-{id}"),
    }
}

fn mk_index(snapshot: &str, tracks: Vec<TrackIndex>) -> SemanticIndex {
    SemanticIndex {
        snapshot_id: snapshot.to_string(),
        project_name: "Demo".to_string(),
        tempo: Some(num(120.0)),
        time_signature: Some("4/4".to_string()),
        tracks,
        assets: vec![AssetIndex {
            path: "samples/kick.wav".to_string(),
            hash: "hash1".to_string(),
            asset_type: "audiofile".to_string(),
        }],
        fingerprint: format!("fp-{snapshot}"),
    }
}

#[test]
fn base_none_marks_all_tracks_added() {
    let next = mk_index("s2", vec![mk_track("a", "A"), mk_track("b", "B"), mk_track("c", "C")]);
    let diff = diff_indexes(None, &next);

    let added_tracks = diff
        .changes
        .iter()
        .filter(|c| matches!(c.change_type, ChangeType::TrackAdded))
        .count();
    assert_eq!(added_tracks, 3);
}

#[test]
fn removed_track_detected() {
    let base = mk_index("s1", vec![mk_track("a", "A")]);
    let next = mk_index("s2", vec![]);
    let diff = diff_indexes(Some(&base), &next);

    assert!(diff
        .changes
        .iter()
        .any(|c| matches!(c.change_type, ChangeType::TrackRemoved) && c.entity_id == "a"));
}

#[test]
fn local_rename_remote_delete_is_conflict() {
    let base = mk_index("base", vec![mk_track("a", "A")]);

    let mut local_track = mk_track("a", "A-Renamed");
    local_track.fingerprint = "fp-local-rename".to_string();
    let local = mk_index("local", vec![local_track]);

    let remote = mk_index("remote", vec![]);

    let conflicts = detect_conflicts(&base, &local, &remote);
    assert_eq!(conflicts.len(), 1);
}

#[test]
fn first_snapshot_lists_tracks_then_assets_as_added() {
    let next = mk_index("s1", vec![mk_track("a", "A"), mk_track("b", "B")]);
    let diff = diff_indexes(None, &next);
    assert!(diff.from_snapshot.is_none());
    assert_eq!(diff.to_snapshot, "s1");
    assert!(!diff.has_conflicts);
    assert_eq!(diff.changes.len(), 3);
    assert!(matches!(diff.changes[0].change_type, ChangeType::TrackAdded));
    assert_eq!(diff.changes[0].entity_id, "a");
    assert_eq!(diff.changes[0].description, "Track 'A' was added");
    assert_eq!(diff.changes[1].entity_id, "b");
    assert!(matches!(diff.changes[2].change_type, ChangeType::AssetAdded));
    assert_eq!(diff.changes[2].entity_id, "samples/kick.wav");
    assert_eq!(diff.changes[2].description, "Asset 'samples/kick.wav' was added");
}

#[test]
fn diff_with_itself_is_empty() {
    let x = mk_index("s1", vec![mk_track("a", "A"), mk_track("b", "B")]);
    let diff = diff_indexes(Some(&x), &x);
    assert!(diff.changes.is_empty());
    assert_eq!(diff.from_snapshot.as_deref(), Some("s1"));
}

#[test]
fn nan_tempo_differs_from_itself() {
    let mut x = mk_index("s1", vec![]);
    x.tempo = Some(num(f64::NAN));
    let diff = diff_indexes(Some(&x), &x);
    assert_eq!(diff.changes.len(), 1);
    assert!(matches!(diff.changes[0].change_type, ChangeType::TempoChanged));
    assert_eq!(diff.changes[0].entity_id, "tempo");
    assert_eq!(diff.changes[0].entity_name, "Tempo");
    assert_eq!(diff.changes[0].description, "Tempo changed from NaN to NaN BPM");
}

#[test]
fn tempo_change_is_reported_with_both_values() {
    let base = mk_index("s1", vec![]);
    let mut next = mk_index("s2", vec![]);
    next.tempo = Some(num(128.5));
    let diff = diff_indexes(Some(&base), &next);
    assert_eq!(diff.changes.len(), 1);
    assert_eq!(diff.changes[0].description, "Tempo changed from 120 to 128.5 BPM");
    next.tempo = None;
    let diff = diff_indexes(Some(&base), &next);
    assert_eq!(diff.changes[0].description, "Tempo changed from 120 to unknown BPM");
}

#[test]
fn zero_and_negative_zero_tempo_are_equal() {
    let mut base = mk_index("s1", vec![]);
    base.tempo = Some(num(0.0));
    let mut next = mk_index("s2", vec![]);
    next.tempo = Some(num(-0.0));
    assert!(diff_indexes(Some(&base), &next).changes.is_empty());
}

#[test]
fn modified_track_reports_clip_and_device_changes() {
    let base = mk_index("s1", vec![mk_track("a", "A")]);
    let mut t = mk_track("a", "A");
    t.fingerprint = "fp-a-2".to_string();
    t.clips[0].fingerprint = "fp-a-c-2".to_string();
    t.devices.clear();
    t.devices.push(DeviceIndex {
        id: "comp".to_string(),
        name: "Compressor".to_string(),
        device_type: "device".to_string(),
        fingerprint: "fp-comp".to_string(),
    });
    let next = mk_index("s2", vec![t]);
    let diff = diff_indexes(Some(&base), &next);
    let kinds: Vec<String> = diff.changes.iter().map(|c| format!("{:?}", c.change_type)).collect();
    assert_eq!(kinds, vec!["TrackModified", "ClipModified", "DeviceRemoved", "DeviceAdded"]);
    assert_eq!(diff.changes[0].description, "Track 'A' was modified");
    assert_eq!(diff.changes[1].entity_name, "clip");
    assert_eq!(diff.changes[1].description, "Clip on track 'A' was modified");
    assert_eq!(diff.changes[2].description, "Device 'EQ' on track 'A' was removed");
    assert_eq!(diff.changes[3].description, "Device 'Compressor' on track 'A' was added");
}

#[test]
fn clips_match_by_position_when_ids_and_fingerprints_change() {
    let base = mk_index("s1", vec![mk_track("a", "A")]);
    let mut t = mk_track("a", "A");
    t.fingerprint = "fp-a-2".to_string();
    t.clips[0].id = "other".to_string();
    t.clips[0].name = None;
    t.clips[0].fingerprint = "fp-new".to_string();
    let next = mk_index("s2", vec![t]);
    let diff = diff_indexes(Some(&base), &next);
    assert_eq!(diff.changes.len(), 2);
    assert!(matches!(diff.changes[1].change_type, ChangeType::ClipModified));
    assert_eq!(diff.changes[1].entity_id, "other");
    assert_eq!(diff.changes[1].entity_name, "Unnamed Clip");
}

#[test]
fn removed_and_added_clips_report_their_beat() {
    let base = mk_index("s1", vec![mk_track("a", "A")]);
    let mut t = mk_track("a", "A");
    t.fingerprint = "fp-a-2".to_string();
    t.clips[0] = ClipIndex {
        id: "c2".to_string(),
        name: None,
        start: num(8.0),
        length: num(2.5),
        fingerprint: "fp-c2".to_string(),
    };
    let next = mk_index("s2", vec![t]);
    let diff = diff_indexes(Some(&base), &next);
    assert_eq!(diff.changes[1].description, "Clip at beat 0 on track 'A' was removed");
    assert_eq!(diff.changes[2].description, "Clip at beat 8 on track 'A' was added");
}

#[test]
fn tracks_match_by_fingerprint_then_name() {
    let base = mk_index("s1", vec![mk_track("a", "A")]);
    let mut renamed = mk_track("z", "Other");
    renamed.fingerprint = "fp-a".to_string();
    let next = mk_index("s2", vec![renamed]);
    assert!(diff_indexes(Some(&base), &next).changes.is_empty());

    let mut same_name = mk_track("z", "A");
    same_name.fingerprint = "fp-z".to_string();
    let next = mk_index("s3", vec![same_name]);
    let diff = diff_indexes(Some(&base), &next);
    assert!(matches!(diff.changes[0].change_type, ChangeType::TrackModified));
    assert_eq!(diff.changes[0].entity_id, "z");
}

#[test]
fn changed_asset_hash_is_reported() {
    let base = mk_index("s1", vec![]);
    let mut next = mk_index("s2", vec![]);
    next.assets[0].hash = "hash2".to_string();
    let diff = diff_indexes(Some(&base), &next);
    assert_eq!(diff.changes.len(), 1);
    assert!(matches!(diff.changes[0].change_type, ChangeType::AssetChanged));
    assert_eq!(diff.changes[0].description, "Asset 'samples/kick.wav' content changed");
    next.assets[0].path = "samples/snare.wav".to_string();
    next.assets[0].hash = "hash1".to_string();
    let diff = diff_indexes(Some(&base), &next);
    assert!(diff.changes.is_empty());
}

#[test]
fn unchanged_local_side_has_no_conflicts() {
    let base = mk_index("base", vec![mk_track("a", "A"), mk_track("b", "B")]);
    let remote = mk_index("remote", vec![mk_track("c", "C")]);
    assert!(detect_conflicts(&base, &base, &remote).is_empty());
}

#[test]
fn identical_sides_have_no_conflicts() {
    let base = mk_index("base", vec![mk_track("a", "A")]);
    let mut t = mk_track("a", "A");
    t.fingerprint = "fp-changed".to_string();
    let side = mk_index("side", vec![t]);
    assert!(detect_conflicts(&base, &side, &side).is_empty());
}

#[test]
fn conflict_values_swap_with_the_sides() {
    let base = mk_index("base", vec![mk_track("a", "A")]);
    let mut l = mk_track("a", "A-Local");
    l.fingerprint = "fp-l".to_string();
    let mut r = mk_track("a", "A-Remote");
    r.fingerprint = "fp-r".to_string();
    let local = mk_index("local", vec![l]);
    let remote = mk_index("remote", vec![r]);
    let c1 = detect_conflicts(&base, &local, &remote);
    let c2 = detect_conflicts(&base, &remote, &local);
    assert_eq!(c1.len(), 1);
    assert_eq!(c2.len(), 1);
    assert_eq!(c1[0].entity_id, "a");
    assert_eq!(c1[0].description, "Track changed differently in local and remote");
    assert_eq!(c1[0].local_value, "A-Local (fp-l)");
    assert_eq!(c1[0].remote_value, "A-Remote (fp-r)");
    assert_eq!(c2[0].local_value, c1[0].remote_value);
    assert_eq!(c2[0].remote_value, c1[0].local_value);
}

#[test]
fn deleted_track_shows_as_deleted_and_empty_id_keys_by_name() {
    let mut t = mk_track("", "Bass");
    t.fingerprint = "fp-bass".to_string();
    let base = mk_index("base", vec![t]);
    let mut l = mk_track("", "Bass");
    l.fingerprint = "fp-bass-2".to_string();
    let local = mk_index("local", vec![l]);
    let remote = mk_index("remote", vec![]);
    let c = detect_conflicts(&base, &local, &remote);
    assert_eq!(c.len(), 1);
    assert_eq!(c[0].entity_id, "Bass");
    assert_eq!(c[0].remote_value, "<deleted>");
}

#[test]
fn conflict_reported_once_per_track() {
    let base = mk_index("base", vec![mk_track("a", "A"), mk_track("b", "B")]);
    let mut l1 = mk_track("a", "A-Local");
    l1.fingerprint = "fp-l1".to_string();
    let mut l2 = mk_track("a", "A-Local-Again");
    l2.fingerprint = "fp-l2".to_string();
    let local = mk_index("local", vec![l1, l2, mk_track("b", "B")]);
    let mut r = mk_track("a", "A-Remote");
    r.fingerprint = "fp-r".to_string();
    let remote = mk_index("remote", vec![r]);
    let c = detect_conflicts(&base, &local, &remote);
    assert_eq!(c.len(), 1);
    assert_eq!(c[0].entity_id, "a");
    assert_eq!(c[0].local_value, "A-Local-Again (fp-l2)");
    assert_eq!(c[0].remote_value, "A-Remote (fp-r)");
}

#[test]
fn change_list_counts_and_order() {
    let base = mk_index("s1", vec![mk_track("a", "A"), mk_track("b", "B"), mk_track("c", "C")]);
    let mut a2 = mk_track("a", "A");
    a2.fingerprint = "fp-a-2".to_string();
    let mut next = mk_index("s2", vec![a2, mk_track("d", "D")]);
    next.tempo = Some(num(128.0));
    next.assets[0].hash = "hash2".to_string();
    let diff = diff_indexes(Some(&base), &next);
    let count = |t: ChangeType| diff.changes.iter().filter(|c| c.change_type == t).count();
    let removed = count(ChangeType::TrackRemoved);
    let added = count(ChangeType::TrackAdded);
    let modified = count(ChangeType::TrackModified);
    assert_eq!((removed, added, modified), (2, 1, 1));
    assert_eq!(removed + next.tracks.len(), added + base.tracks.len());
    assert!(removed + modified <= base.tracks.len());
    assert!(added + modified <= next.tracks.len());
    assert_eq!(diff.changes[0].change_type, ChangeType::TempoChanged);
    assert_eq!(diff.changes.last().map(|c| c.change_type), Some(ChangeType::AssetChanged));
}
