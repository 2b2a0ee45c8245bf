use bitwig_versions::dawproject::{
    inspect_dawproject, number_candidates, parse_document, parse_metadata_xml, DawprojectError,
    NumberEntry, XmlDoc,
};
use bitwig_versions::index::{build_semantic_index, fingerprint_node, is_asset_tag, is_clip_tag, is_device_tag, is_track_tag};
use bitwig_versions::model::NumberValue;

const PROJECT_XML: &str = r#"<Project name="Demo Song" tempo="120" timeSignature="4/4"><Track id="t1" name="Drums"><Clip id="c1" name="Beat" start="0" length="4"/><Device id="d1" name="EQ"/></Track><AudioFile path="samples/kick.wav"/></Project>"#;
const METADATA_XML: &str = r#"<Meta><Application name="Bitwig Studio" version="5.2"/><Project name="Demo Song"/></Meta>"#;

fn numbers(docs: &[&XmlDoc]) -> Vec<NumberEntry> {
    let mut out = Vec::new();
    for d in docs {
        for t in number_candidates(d) {
            let value = t
                .parse::<f64>()
                .ok()
                .map(|v| NumberValue { bits: v.to_bits(), text: v.to_string() });
            out.push(NumberEntry { text: t, value });
        }
    }
    out
}

fn doc(raw: &str) -> XmlDoc {
    match parse_document(raw) {
        Ok(d) => d,
        Err(_) => panic!("document should parse"),
    }
}

#[test]
fn inspect_dawproject_reads_project_name() {
    let meta = doc(METADATA_XML);
    let project = doc(PROJECT_XML);
    let table = numbers(&[&meta, &project]);
    let info = inspect_dawproject(Some(&meta), Some(&project), "minimal", &table);
    assert_eq!(info.project_name, "Demo Song");
    assert_eq!(info.tempo.as_ref().map(|t| t.text.as_str()), Some("120"));
    assert_eq!(info.time_signature.as_deref(), Some("4/4"));
    assert_eq!(info.application_name.as_deref(), Some("Bitwig Studio"));
    assert_eq!(info.application_version.as_deref(), Some("5.2"));
}

#[test]
fn metadata_alone_and_fallback() {
    let meta = doc(METADATA_XML);
    let table = numbers(&[&meta]);
    let info = parse_metadata_xml(&meta, &table);
    assert_eq!(info.project_name, "Bitwig Studio");
    assert!(info.tempo.is_none());
    let info = inspect_dawproject(None, None, "minimal", &table);
    assert_eq!(info.project_name, "minimal");
    assert!(info.application_name.is_none());
}

#[test]
fn invalid_xml_is_an_error() {
    assert!(matches!(parse_document("<Project name=\\\"x\\\"/>"), Err(DawprojectError::Xml(_))));
    assert!(matches!(parse_document("not xml"), Err(DawprojectError::Xml(_))));
}

#[test]
fn build_semantic_index_tracks_not_empty_for_track_xml() {
    let project = doc(PROJECT_XML);
    let table = numbers(&[&project]);
    let index = build_semantic_index(&project, &table, "minimal", "snap-1");
    assert!(!index.tracks.is_empty());
}

#[test]
fn semantic_index_of_minimal_project() {
    let project = doc(PROJECT_XML);
    let table = numbers(&[&project]);
    let index = build_semantic_index(&project, &table, "minimal", "snap-1");
    assert_eq!(index.snapshot_id, "snap-1");
    assert_eq!(index.project_name, "Demo Song");
    assert_eq!(index.tempo.as_ref().map(|t| t.bits), Some(120f64.to_bits()));
    assert_eq!(index.time_signature.as_deref(), Some("4/4"));
    assert_eq!(index.tracks.len(), 1);
    let t = &index.tracks[0];
    assert_eq!(t.id, "t1");
    assert_eq!(t.name, "Drums");
    assert_eq!(t.track_type, "track");
    assert_eq!(t.clips.len(), 1);
    assert_eq!(t.clips[0].id, "c1");
    assert_eq!(t.clips[0].name.as_deref(), Some("Beat"));
    assert_eq!(t.clips[0].start.bits, 0f64.to_bits());
    assert_eq!(t.clips[0].length.text, "4");
    assert_eq!(t.devices.len(), 1);
    assert_eq!(t.devices[0].name, "EQ");
    assert_eq!(t.devices[0].device_type, "device");
    assert_eq!(index.assets.len(), 1);
    assert_eq!(index.assets[0].path, "samples/kick.wav");
    assert_eq!(index.assets[0].hash, blake3::hash(b"samples/kick.wav").to_hex().to_string());
    assert_eq!(index.assets[0].asset_type, "audiofile");

    let attrs = vec![
        ("id".to_string(), "c1".to_string()),
        ("length".to_string(), "4".to_string()),
        ("name".to_string(), "Beat".to_string()),
        ("start".to_string(), "0".to_string()),
    ];
    let children: Vec<String> = vec![];
    let payload = format!("clip|{:?}|{:?}|", attrs, children);
    assert_eq!(t.clips[0].fingerprint, blake3::hash(payload.as_bytes()).to_hex().to_string());

    let mut h = blake3::Hasher::new();
    h.update(b"snap-1");
    h.update(b"Demo Song");
    h.update(t.fingerprint.as_bytes());
    h.update(index.assets[0].hash.as_bytes());
    assert_eq!(index.fingerprint, h.finalize().to_hex().to_string());
}

#[test]
fn generated_ids_and_defaults() {
    let project = doc(r#"<Project><AudioTrack title="Bass"><Region position=" 2.5 " len="x"/><Plugin plugin="Synth"/></AudioTrack></Project>"#);
    let table = numbers(&[&project]);
    let index = build_semantic_index(&project, &table, "fallback", "s");
    assert_eq!(index.project_name, "fallback");
    assert!(index.tempo.is_none());
    assert_eq!(index.tracks.len(), 1);
    let t = &index.tracks[0];
    assert_eq!(t.name, "Bass");
    assert_eq!(t.track_type, "audiotrack");
    let expected = blake3::hash(b"AudioTrack1").to_hex().to_string();
    assert_eq!(t.id, expected[0..12]);
    assert_eq!(t.clips.len(), 1);
    assert_eq!(t.clips[0].start.text, "2.5");
    assert_eq!(t.clips[0].length.bits, 0);
    assert_eq!(t.clips[0].length.text, "0");
    let clip_id = blake3::hash(b"Region1").to_hex().to_string();
    assert_eq!(t.clips[0].id, clip_id[0..12]);
    assert_eq!(t.devices.len(), 1);
    assert_eq!(t.devices[0].name, "Synth");
    assert!(index.assets.is_empty());
}

#[test]
fn tag_kinds() {
    assert!(is_track_tag("audiotrack"));
    assert!(is_track_tag("mixerchannel"));
    assert!(!is_track_tag("project"));
    assert!(is_clip_tag("notes"));
    assert!(is_device_tag("effectslot"));
    assert!(is_asset_tag("samplefile"));
    assert!(!is_asset_tag("clip"));
}

#[test]
fn tempo_element_text_is_read() {
    let project = doc("<Song><Tempo> 96.5 </Tempo><Name>  My Tune </Name></Song>");
    let table = numbers(&[&project]);
    let index = build_semantic_index(&project, &table, "f", "s");
    assert_eq!(index.tempo.as_ref().map(|t| t.text.as_str()), Some("96.5"));
    assert_eq!(index.project_name, "My Tune");
}

#[test]
fn fingerprint_covers_children_and_text() {
    let project = doc(r#"<Project><Track ID="x" id=" t9 "> a b <Clip/><Device/></Track></Project>"#);
    let table = numbers(&[&project]);
    let index = build_semantic_index(&project, &table, "f", "s");
    let t = &index.tracks[0];
    assert_eq!(t.id, " t9 ");
    let attrs = vec![
        ("id".to_string(), "t9".to_string()),
        ("id".to_string(), "x".to_string()),
    ];
    let children = vec!["clip".to_string(), "device".to_string()];
    let payload = format!("track|{:?}|{:?}|ab", attrs, children);
    assert_eq!(t.fingerprint, blake3::hash(payload.as_bytes()).to_hex().to_string());
}

#[test]
fn fingerprint_ignores_attribute_and_child_order() {
    let d1 = doc(r#"<P><Track a="1" B=" 2 "><Clip><X/></Clip><Device/></Track></P>"#);
    let d2 = doc(r#"<P><Track b="2" A="1"><Device/><Clip/></Track></P>"#);
    let i1 = build_semantic_index(&d1, &numbers(&[&d1]), "f", "s");
    let i2 = build_semantic_index(&d2, &numbers(&[&d2]), "f", "s");
    assert_eq!(i1.tracks[0].fingerprint, i2.tracks[0].fingerprint);
    assert_ne!(i1.tracks[0].clips[0].fingerprint, i2.tracks[0].clips[0].fingerprint);
    let d3 = doc(r#"<P><Track a="1" B="3"><Clip/><Device/></Track></P>"#);
    let i3 = build_semantic_index(&d3, &numbers(&[&d3]), "f", "s");
    assert_ne!(i1.tracks[0].fingerprint, i3.tracks[0].fingerprint);
}

#[test]
fn index_is_determined_by_the_document_text() {
    let build = || {
        let d = doc(PROJECT_XML);
        let table = numbers(&[&d]);
        build_semantic_index(&d, &table, "minimal", "snap-1")
    };
    let (a, b) = (build(), build());
    assert_eq!(a.fingerprint, b.fingerprint);
    assert_eq!(a.project_name, b.project_name);
    assert_eq!(a.tracks.len(), b.tracks.len());
    for (x, y) in a.tracks.iter().zip(b.tracks.iter()) {
        assert_eq!(x.id, y.id);
        assert_eq!(x.fingerprint, y.fingerprint);
        assert_eq!(x.clips.len(), y.clips.len());
        for (c, d) in x.clips.iter().zip(y.clips.iter()) {
            assert_eq!(c.id, d.id);
            assert_eq!(c.fingerprint, d.fingerprint);
        }
    }
    assert_eq!(a.assets.len(), b.assets.len());
    assert_eq!(a.assets[0].hash, b.assets[0].hash);
}

#[test]
fn generated_id_uses_all_digits_of_the_position() {
    let project = doc("<P><a/><a/><a/><a/><a/><a/><a/><a/><a/><a/><Track/></P>");
    let table = numbers(&[&project]);
    let index = build_semantic_index(&project, &table, "f", "s");
    let expected = blake3::hash(b"Track11").to_hex().to_string();
    assert_eq!(index.tracks[0].id, expected[0..12]);
    assert_eq!(index.tracks[0].track_type, "track");
}

#[test]
fn backslash_escaped_quotes_are_not_xml() {
    let raw = r#"<Project name=\"Demo Song\" tempo=\"120\" timeSignature=\"4/4\"><Track id=\"t1\" name=\"Drums\"><Clip id=\"c1\" name=\"Beat\" start=\"0\" length=\"4\"/><Device id=\"d1\" name=\"EQ\"/></Track><AudioFile path=\"samples/kick.wav\"/></Project>"#;
    assert!(matches!(parse_document(raw), Err(DawprojectError::Xml(_))));
    let meta = r#"<Meta><Application name=\"Bitwig Studio\" version=\"5.2\"/><Project name=\"Demo Song\"/></Meta>"#;
    assert!(matches!(parse_document(meta), Err(DawprojectError::Xml(_))));
}

#[test]
fn fingerprint_node_is_order_free_hex() {
    let d1 = doc(r#"<P><Track a="1" b="2"><Clip/><Device/></Track></P>"#);
    let d2 = doc(r#"<P><Track b="2" a="1"><Device/><Clip><Deep/></Clip></Track></P>"#);
    let f1 = fingerprint_node(&d1, 2);
    let f2 = fingerprint_node(&d2, 2);
    assert_eq!(f1, f2);
    assert_eq!(f1.len(), 64);
    assert!(f1.chars().all(|c| c.is_ascii_digit() || ('a'..='f').contains(&c)));
    let index = build_semantic_index(&d1, &numbers(&[&d1]), "f", "s");
    assert_eq!(index.tracks[0].fingerprint, f1);
}
