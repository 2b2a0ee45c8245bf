//! The data model shared by the indexer, the diff engine and the API.

use vstd::prelude::*;

verus! {

/// A double-precision number carried as plain values: its IEEE-754 bit
/// pattern, by which numbers are compared, and its decimal rendering (the
/// way Rust displays the same double), by which it is reported.
pub struct NumberValue {
    pub bits: u64,
    pub text: String,
}

/// The bit pattern is a NaN: exponent all ones, mantissa not zero.
pub open spec fn f64_bits_is_nan(b: u64) -> bool {
    &&& (b & 0x7ff0_0000_0000_0000u64) == 0x7ff0_0000_0000_0000u64
    &&& (b & 0x000f_ffff_ffff_ffffu64) != 0
}

/// IEEE-754 equality of two doubles given by their bit patterns: NaN equals
/// nothing, the two zeros are equal, otherwise the patterns must agree.
pub open spec fn f64_bits_eq(a: u64, b: u64) -> bool {
    &&& !f64_bits_is_nan(a)
    &&& !f64_bits_is_nan(b)
    &&& (a == b || ((a & 0x7fff_ffff_ffff_ffffu64) == 0 && (b & 0x7fff_ffff_ffff_ffffu64) == 0))
}

/// Equality of two optional numbers, as `==` on `Option<f64>` decides it.
pub open spec fn opt_number_eq(a: Option<NumberValue>, b: Option<NumberValue>) -> bool {
    match (a, b) {
        (None, None) => true,
        (Some(x), Some(y)) => f64_bits_eq(x.bits, y.bits),
        _ => false,
    }
}

pub fn number_eq(a: &NumberValue, b: &NumberValue) -> (r: bool)
    ensures
        r == f64_bits_eq(a.bits, b.bits),
{
    let a_nan = (a.bits & 0x7ff0_0000_0000_0000u64) == 0x7ff0_0000_0000_0000u64
        && (a.bits & 0x000f_ffff_ffff_ffffu64) != 0;
    let b_nan = (b.bits & 0x7ff0_0000_0000_0000u64) == 0x7ff0_0000_0000_0000u64
        && (b.bits & 0x000f_ffff_ffff_ffffu64) != 0;
    !a_nan && !b_nan && (a.bits == b.bits || ((a.bits & 0x7fff_ffff_ffff_ffffu64) == 0 && (
    b.bits & 0x7fff_ffff_ffff_ffffu64) == 0))
}

pub fn opt_number_equal(a: &Option<NumberValue>, b: &Option<NumberValue>) -> (r: bool)
    ensures
        r == opt_number_eq(*a, *b),
{
    match (a, b) {
        (None, None) => true,
        (Some(x), Some(y)) => number_eq(x, y),
        _ => false,
    }
}


/// One clip of a track.
pub struct ClipIndex {
    pub id: String,
    pub name: Option<String>,
    pub start: NumberValue,
    pub length: NumberValue,
    pub fingerprint: String,
}

/// One device (instrument or effect) of a track.
pub struct DeviceIndex {
    pub id: String,
    pub name: String,
    pub device_type: String,
    pub fingerprint: String,
}

/// One track with its clips and devices.
pub struct TrackIndex {
    pub id: String,
    pub name: String,
    pub track_type: String,
    pub clips: Vec<ClipIndex>,
    pub devices: Vec<DeviceIndex>,
    pub fingerprint: String,
}

/// One audio file or sample referenced by the project.
pub struct AssetIndex {
    pub path: String,
    pub hash: String,
    pub asset_type: String,
}

/// What a snapshot of a project holds, as far as comparisons go.
pub struct SemanticIndex {
    pub snapshot_id: String,
    pub project_name: String,
    pub tempo: Option<NumberValue>,
    pub time_signature: Option<String>,
    pub tracks: Vec<TrackIndex>,
    pub assets: Vec<AssetIndex>,
    pub fingerprint: String,
}

#[derive(Clone, Copy, Debug, PartialEq, Eq, Structural)]
pub enum ChangeType {
    TrackAdded,
    TrackRemoved,
    TrackModified,
    ClipAdded,
    ClipRemoved,
    ClipModified,
    DeviceAdded,
    DeviceRemoved,
    DeviceStateChanged,
    AssetAdded,
    AssetRemoved,
    AssetChanged,
    TempoChanged,
}

/// One reported change between two snapshots.
pub struct Change {
    pub change_type: ChangeType,
    pub entity_id: String,
    pub entity_name: String,
    pub description: String,
}

/// The mathematical value of a change.
pub struct ChangeView {
    pub change_type: ChangeType,
    pub entity_id: Seq<char>,
    pub entity_name: Seq<char>,
    pub description: Seq<char>,
}

impl View for Change {
    type V = ChangeView;

    open spec fn view(&self) -> ChangeView {
        ChangeView {
            change_type: self.change_type,
            entity_id: self.entity_id@,
            entity_name: self.entity_name@,
            description: self.description@,
        }
    }
}

/// The values of a list of changes.
pub open spec fn change_views(s: Seq<Change>) -> Seq<ChangeView> {
    s.map_values(|c: Change| c@)
}

pub proof fn lemma_change_views_push(s: Seq<Change>, c: Change)
    ensures
        change_views(s.push(c)) == change_views(s).push(c@),
{
    assert(change_views(s.push(c)) =~= change_views(s).push(c@));
}

/// The changes that lead from one snapshot to the next.
pub struct ProjectDiff {
    pub from_snapshot: Option<String>,
    pub to_snapshot: String,
    pub changes: Vec<Change>,
    pub has_conflicts: bool,
}

/// An entity changed in two different ways on two sides.
pub struct Conflict {
    pub entity_id: String,
    pub description: String,
    pub local_value: String,
    pub remote_value: String,
}

/// The mathematical value of a conflict.
pub struct ConflictView {
    pub entity_id: Seq<char>,
    pub description: Seq<char>,
    pub local_value: Seq<char>,
    pub remote_value: Seq<char>,
}

impl View for Conflict {
    type V = ConflictView;

    open spec fn view(&self) -> ConflictView {
        ConflictView {
            entity_id: self.entity_id@,
            description: self.description@,
            local_value: self.local_value@,
            remote_value: self.remote_value@,
        }
    }
}

// ---------------------------------------------------------------------------
// Mathematical values of the index types.
// ---------------------------------------------------------------------------

pub struct NumberView {
    pub bits: u64,
    pub text: Seq<char>,
}

impl View for NumberValue {
    type V = NumberView;

    open spec fn view(&self) -> NumberView {
        NumberView { bits: self.bits, text: self.text@ }
    }
}

pub open spec fn opt_view(s: Option<String>) -> Option<Seq<char>> {
    match s {
        Some(x) => Some(x@),
        None => None,
    }
}

pub open spec fn opt_number_view(n: Option<NumberValue>) -> Option<NumberView> {
    match n {
        Some(x) => Some(x@),
        None => None,
    }
}

pub struct ClipView {
    pub id: Seq<char>,
    pub name: Option<Seq<char>>,
    pub start: NumberView,
    pub length: NumberView,
    pub fingerprint: Seq<char>,
}

impl View for ClipIndex {
    type V = ClipView;

    open spec fn view(&self) -> ClipView {
        ClipView {
            id: self.id@,
            name: opt_view(self.name),
            start: self.start@,
            length: self.length@,
            fingerprint: self.fingerprint@,
        }
    }
}

pub struct DeviceView {
    pub id: Seq<char>,
    pub name: Seq<char>,
    pub device_type: Seq<char>,
    pub fingerprint: Seq<char>,
}

impl View for DeviceIndex {
    type V = DeviceView;

    open spec fn view(&self) -> DeviceView {
        DeviceView {
            id: self.id@,
            name: self.name@,
            device_type: self.device_type@,
            fingerprint: self.fingerprint@,
        }
    }
}

pub struct TrackView {
    pub id: Seq<char>,
    pub name: Seq<char>,
    pub track_type: Seq<char>,
    pub clips: Seq<ClipView>,
    pub devices: Seq<DeviceView>,
    pub fingerprint: Seq<char>,
}

impl View for TrackIndex {
    type V = TrackView;

    open spec fn view(&self) -> TrackView {
        TrackView {
            id: self.id@,
            name: self.name@,
            track_type: self.track_type@,
            clips: self.clips@.map_values(|c: ClipIndex| c@),
            devices: self.devices@.map_values(|d: DeviceIndex| d@),
            fingerprint: self.fingerprint@,
        }
    }
}

pub struct AssetView {
    pub path: Seq<char>,
    pub hash: Seq<char>,
    pub asset_type: Seq<char>,
}

impl View for AssetIndex {
    type V = AssetView;

    open spec fn view(&self) -> AssetView {
        AssetView { path: self.path@, hash: self.hash@, asset_type: self.asset_type@ }
    }
}

pub struct IndexView {
    pub snapshot_id: Seq<char>,
    pub project_name: Seq<char>,
    pub tempo: Option<NumberView>,
    pub time_signature: Option<Seq<char>>,
    pub tracks: Seq<TrackView>,
    pub assets: Seq<AssetView>,
    pub fingerprint: Seq<char>,
}

impl View for SemanticIndex {
    type V = IndexView;

    open spec fn view(&self) -> IndexView {
        IndexView {
            snapshot_id: self.snapshot_id@,
            project_name: self.project_name@,
            tempo: opt_number_view(self.tempo),
            time_signature: opt_view(self.time_signature),
            tracks: self.tracks@.map_values(|t: TrackIndex| t@),
            assets: self.assets@.map_values(|a: AssetIndex| a@),
            fingerprint: self.fingerprint@,
        }
    }
}

} // verus!
