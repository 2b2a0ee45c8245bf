//! The change list between two semantic indexes.
//!
//! Tracks, clips, devices and assets of the older index are matched greedily,
//! in order, against the not yet matched entities of the newer one: first by
//! identity, then by fingerprint, then by a third key. What matches and
//! differs is reported as modified, what finds no partner as removed, and
//! what stays unmatched in the newer index as added.

use vstd::prelude::*;
use crate::model::{Change, ChangeType, ChangeView, change_views, lemma_change_views_push, TrackIndex, ClipIndex, DeviceIndex, AssetIndex, SemanticIndex, ProjectDiff, NumberValue, f64_bits_eq, opt_number_eq, opt_number_equal, number_eq, f64_bits_is_nan};
use crate::text::concat3;

verus! {

// ---------------------------------------------------------------------------
// The greedy matching, over any kind of entity.
// ---------------------------------------------------------------------------

/// The first index `j >= k` that is free in `used` and accepted by `p`.
pub open spec fn first_free(used: Seq<bool>, p: spec_fn(int) -> bool, k: int) -> Option<int>
    decreases used.len() - k,
{
    if k < 0 || k >= used.len() {
        None
    } else if !used[k] && p(k) {
        Some(k)
    } else {
        first_free(used, p, k + 1)
    }
}

/// The first free candidate by the first key, else by the second, else by the third.
pub open spec fn pick(
    used: Seq<bool>,
    p1: spec_fn(int) -> bool,
    p2: spec_fn(int) -> bool,
    p3: spec_fn(int) -> bool,
) -> Option<int> {
    match first_free(used, p1, 0) {
        Some(j) => Some(j),
        None => match first_free(used, p2, 0) {
            Some(j) => Some(j),
            None => first_free(used, p3, 0),
        },
    }
}

/// Which of the `n` newer entities are taken after the first `i` older ones
/// have looked for a partner; `find(i, used)` is the partner of older entity `i`.
pub open spec fn greedy_used(n: nat, find: spec_fn(int, Seq<bool>) -> Option<int>, i: nat) -> Seq<
    bool,
>
    decreases i,
{
    if i == 0 {
        Seq::new(n, |j: int| false)
    } else {
        let u = greedy_used(n, find, (i - 1) as nat);
        match find(i - 1, u) {
            Some(j) => u.update(j, true),
            None => u,
        }
    }
}

/// The changes reported for the first `i` older entities, `per(i, partner)` each.
pub open spec fn matched_part(
    n: nat,
    find: spec_fn(int, Seq<bool>) -> Option<int>,
    per: spec_fn(int, Option<int>) -> Seq<ChangeView>,
    i: nat,
) -> Seq<ChangeView>
    decreases i,
{
    if i == 0 {
        Seq::empty()
    } else {
        matched_part(n, find, per, (i - 1) as nat) + per(
            i - 1,
            find(i - 1, greedy_used(n, find, (i - 1) as nat)),
        )
    }
}

/// The changes `added(j)` for each of the first `j` newer entities not taken in `used`.
pub open spec fn added_part(used: Seq<bool>, added: spec_fn(int) -> Seq<ChangeView>, j: nat) -> Seq<
    ChangeView,
>
    decreases j,
{
    if j == 0 {
        Seq::empty()
    } else {
        added_part(used, added, (j - 1) as nat) + if !used[j - 1] {
            added(j - 1)
        } else {
            Seq::empty()
        }
    }
}

/// All changes between `n_base` older and `n_next` newer entities.
pub open spec fn greedy_changes(
    n_base: nat,
    n_next: nat,
    find: spec_fn(int, Seq<bool>) -> Option<int>,
    per: spec_fn(int, Option<int>) -> Seq<ChangeView>,
    added: spec_fn(int) -> Seq<ChangeView>,
) -> Seq<ChangeView> {
    matched_part(n_next, find, per, n_base) + added_part(
        greedy_used(n_next, find, n_base),
        added,
        n_next,
    )
}

pub open spec fn opt_index(r: Option<usize>) -> Option<int> {
    match r {
        Some(j) => Some(j as int),
        None => None,
    }
}

/// The three keys by which entities are matched, in order of priority.
#[derive(Clone, Copy)]
pub enum MatchKey {
    Identity,
    Fingerprint,
    Fallback,
}

/// Entities that can be matched against each other by key.
pub trait Matchable: Sized {
    spec fn same_by(&self, other: &Self, key: MatchKey) -> bool;

    fn equal_by(&self, other: &Self, key: MatchKey) -> (b: bool)
        ensures
            b == self.same_by(other, key),
    ;
}

/// Candidate `j` agrees with `t` on `key`.
pub open spec fn key_pred<T: Matchable>(cands: Seq<T>, t: T, key: MatchKey) -> spec_fn(int) -> bool {
    |j: int| cands[j].same_by(&t, key)
}

/// The partner of `t` among the free candidates.
pub open spec fn pick_partner<T: Matchable>(cands: Seq<T>, t: T, used: Seq<bool>) -> Option<int> {
    pick(
        used,
        key_pred(cands, t, MatchKey::Identity),
        key_pred(cands, t, MatchKey::Fingerprint),
        key_pred(cands, t, MatchKey::Fallback),
    )
}

/// The first free candidate that agrees with `target` on `key`.
fn find_free<T: Matchable>(cands: &Vec<T>, target: &T, used: &Vec<bool>, key: MatchKey) -> (r: Option<
    usize,
>)
    requires
        used.len() == cands.len(),
    ensures
        opt_index(r) == first_free(used@, key_pred(cands@, *target, key), 0),
        r matches Some(j) ==> j < used.len(),
{
    let ghost p = key_pred(cands@, *target, key);
    let mut k: usize = 0;
    while k < used.len()
        invariant
            k <= used.len(),
            used.len() == cands.len(),
            p == key_pred(cands@, *target, key),
            first_free(used@, p, 0) == first_free(used@, p, k as int),
        decreases used.len() - k,
    {
        let hit = cands[k].equal_by(target, key);
        assert(p(k as int) == hit);
        if !used[k] && hit {
            return Some(k);
        }
        k = k + 1;
    }
    None
}

/// The partner of `target` among the free candidates (first by identity,
/// then by fingerprint, then by the fallback key).
fn find_partner<T: Matchable>(cands: &Vec<T>, target: &T, used: &Vec<bool>) -> (r: Option<usize>)
    requires
        used.len() == cands.len(),
    ensures
        opt_index(r) == pick_partner(cands@, *target, used@),
        r matches Some(j) ==> j < used.len(),
{
    let r1 = find_free(cands, target, used, MatchKey::Identity);
    if r1.is_some() {
        return r1;
    }
    let r2 = find_free(cands, target, used, MatchKey::Fingerprint);
    if r2.is_some() {
        return r2;
    }
    find_free(cands, target, used, MatchKey::Fallback)
}

impl Matchable for TrackIndex {
    open spec fn same_by(&self, other: &Self, key: MatchKey) -> bool {
        match key {
            MatchKey::Identity => self.id@ == other.id@,
            MatchKey::Fingerprint => self.fingerprint@ == other.fingerprint@,
            MatchKey::Fallback => self.name@ == other.name@,
        }
    }

    fn equal_by(&self, other: &Self, key: MatchKey) -> (b: bool) {
        match key {
            MatchKey::Identity => self.id == other.id,
            MatchKey::Fingerprint => self.fingerprint == other.fingerprint,
            MatchKey::Fallback => self.name == other.name,
        }
    }
}

impl Matchable for ClipIndex {
    open spec fn same_by(&self, other: &Self, key: MatchKey) -> bool {
        match key {
            MatchKey::Identity => self.id@ == other.id@,
            MatchKey::Fingerprint => self.fingerprint@ == other.fingerprint@,
            MatchKey::Fallback => f64_bits_eq(self.start.bits, other.start.bits) && f64_bits_eq(
                self.length.bits,
                other.length.bits,
            ),
        }
    }

    fn equal_by(&self, other: &Self, key: MatchKey) -> (b: bool) {
        match key {
            MatchKey::Identity => self.id == other.id,
            MatchKey::Fingerprint => self.fingerprint == other.fingerprint,
            MatchKey::Fallback => number_eq(&self.start, &other.start) && number_eq(
                &self.length,
                &other.length,
            ),
        }
    }
}

impl Matchable for DeviceIndex {
    open spec fn same_by(&self, other: &Self, key: MatchKey) -> bool {
        match key {
            MatchKey::Identity => self.id@ == other.id@,
            MatchKey::Fingerprint => self.fingerprint@ == other.fingerprint@,
            MatchKey::Fallback => self.name@ == other.name@,
        }
    }

    fn equal_by(&self, other: &Self, key: MatchKey) -> (b: bool) {
        match key {
            MatchKey::Identity => self.id == other.id,
            MatchKey::Fingerprint => self.fingerprint == other.fingerprint,
            MatchKey::Fallback => self.name == other.name,
        }
    }
}

/// Assets are matched by path, then by content hash; there is no third key.
impl Matchable for AssetIndex {
    open spec fn same_by(&self, other: &Self, key: MatchKey) -> bool {
        match key {
            MatchKey::Identity => self.path@ == other.path@,
            MatchKey::Fingerprint => self.hash@ == other.hash@,
            MatchKey::Fallback => false,
        }
    }

    fn equal_by(&self, other: &Self, key: MatchKey) -> (b: bool) {
        match key {
            MatchKey::Identity => self.path == other.path,
            MatchKey::Fingerprint => self.hash == other.hash,
            MatchKey::Fallback => false,
        }
    }
}

/// The partner-finding function of the greedy matching over two lists.
pub open spec fn finder<T: Matchable>(base: Seq<T>, next: Seq<T>) -> spec_fn(int, Seq<bool>) -> Option<
    int,
> {
    |i: int, u: Seq<bool>| pick_partner(next, base[i], u)
}

// ---------------------------------------------------------------------------
// What is reported for matched, removed and added entities.
// ---------------------------------------------------------------------------

/// Entities of a list that is compared by greedy matching. `base_owner` and
/// `next_owner` name the track that holds the entity in the older and in the
/// newer index, where the entity belongs to a track.
pub trait Reported: Matchable {
    spec fn differs(&self, next: &Self) -> bool;

    spec fn on_modified(&self, next: &Self, next_owner: Seq<char>) -> Seq<ChangeView>;

    spec fn on_removed(&self, base_owner: Seq<char>) -> Seq<ChangeView>;

    spec fn on_added(&self, next_owner: Seq<char>) -> Seq<ChangeView>;

    fn differs_from(&self, next: &Self) -> (b: bool)
        ensures
            b == self.differs(next),
    ;

    fn report_modified(&self, next: &Self, next_owner: &str, changes: &mut Vec<Change>)
        ensures
            change_views(final(changes)@) == change_views(old(changes)@) + self.on_modified(
                next,
                next_owner@,
            ),
    ;

    fn report_removed(&self, base_owner: &str, changes: &mut Vec<Change>)
        ensures
            change_views(final(changes)@) == change_views(old(changes)@) + self.on_removed(
                base_owner@,
            ),
    ;

    fn report_added(&self, next_owner: &str, changes: &mut Vec<Change>)
        ensures
            change_views(final(changes)@) == change_views(old(changes)@) + self.on_added(
                next_owner@,
            ),
    ;
}

pub open spec fn change_of(
    change_type: ChangeType,
    entity_id: Seq<char>,
    entity_name: Seq<char>,
    description: Seq<char>,
) -> ChangeView {
    ChangeView { change_type, entity_id, entity_name, description }
}

fn push_change(
    changes: &mut Vec<Change>,
    change_type: ChangeType,
    entity_id: &String,
    entity_name: String,
    description: String,
)
    ensures
        change_views(final(changes)@) == change_views(old(changes)@).push(
            change_of(change_type, entity_id@, entity_name@, description@),
        ),
{
    let c = Change { change_type, entity_id: entity_id.clone(), entity_name, description };
    proof {
        lemma_change_views_push(changes@, c);
    }
    changes.push(c);
}

/// The name under which a clip is reported.
pub open spec fn clip_label(c: ClipIndex) -> Seq<char> {
    match c.name {
        Some(n) => n@,
        None => "Unnamed Clip"@,
    }
}

fn clip_label_of(c: &ClipIndex) -> (r: String)
    ensures
        r@ == clip_label(*c),
{
    match &c.name {
        Some(n) => n.clone(),
        None => String::from_str("Unnamed Clip"),
    }
}

/// `<a><b><c><d><e>` as one string.
fn concat5(a: &str, b: &str, c: &str, d: &str, e: &str) -> (r: String)
    ensures
        r@ == a@ + b@ + c@ + d@ + e@,
{
    let mut s = concat3(a, b, c);
    s.append(d);
    s.append(e);
    s
}

impl Reported for ClipIndex {
    open spec fn differs(&self, next: &Self) -> bool {
        self.fingerprint@ != next.fingerprint@
    }

    open spec fn on_modified(&self, next: &Self, next_owner: Seq<char>) -> Seq<ChangeView> {
        seq![
            change_of(
                ChangeType::ClipModified,
                next.id@,
                clip_label(*next),
                "Clip on track '"@ + next_owner + "' was modified"@,
            ),
        ]
    }

    open spec fn on_removed(&self, base_owner: Seq<char>) -> Seq<ChangeView> {
        seq![
            change_of(
                ChangeType::ClipRemoved,
                self.id@,
                clip_label(*self),
                "Clip at beat "@ + self.start.text@ + " on track '"@ + base_owner
                    + "' was removed"@,
            ),
        ]
    }

    open spec fn on_added(&self, next_owner: Seq<char>) -> Seq<ChangeView> {
        seq![
            change_of(
                ChangeType::ClipAdded,
                self.id@,
                clip_label(*self),
                "Clip at beat "@ + self.start.text@ + " on track '"@ + next_owner
                    + "' was added"@,
            ),
        ]
    }

    fn differs_from(&self, next: &Self) -> (b: bool) {
        self.fingerprint != next.fingerprint
    }

    fn report_modified(&self, next: &Self, next_owner: &str, changes: &mut Vec<Change>) {
        let d = concat3("Clip on track '", next_owner, "' was modified");
        push_change(changes, ChangeType::ClipModified, &next.id, clip_label_of(next), d);
    }

    fn report_removed(&self, base_owner: &str, changes: &mut Vec<Change>) {
        let d = concat5(
            "Clip at beat ",
            self.start.text.as_str(),
            " on track '",
            base_owner,
            "' was removed",
        );
        push_change(changes, ChangeType::ClipRemoved, &self.id, clip_label_of(self), d);
    }

    fn report_added(&self, next_owner: &str, changes: &mut Vec<Change>) {
        let d = concat5(
            "Clip at beat ",
            self.start.text.as_str(),
            " on track '",
            next_owner,
            "' was added",
        );
        push_change(changes, ChangeType::ClipAdded, &self.id, clip_label_of(self), d);
    }
}

impl Reported for DeviceIndex {
    open spec fn differs(&self, next: &Self) -> bool {
        self.fingerprint@ != next.fingerprint@
    }

    open spec fn on_modified(&self, next: &Self, next_owner: Seq<char>) -> Seq<ChangeView> {
        seq![
            change_of(
                ChangeType::DeviceStateChanged,
                next.id@,
                next.name@,
                "Device '"@ + next.name@ + "' on track '"@ + next_owner + "' changed"@,
            ),
        ]
    }

    open spec fn on_removed(&self, base_owner: Seq<char>) -> Seq<ChangeView> {
        seq![
            change_of(
                ChangeType::DeviceRemoved,
                self.id@,
                self.name@,
                "Device '"@ + self.name@ + "' on track '"@ + base_owner + "' was removed"@,
            ),
        ]
    }

    open spec fn on_added(&self, next_owner: Seq<char>) -> Seq<ChangeView> {
        seq![
            change_of(
                ChangeType::DeviceAdded,
                self.id@,
                self.name@,
                "Device '"@ + self.name@ + "' on track '"@ + next_owner + "' was added"@,
            ),
        ]
    }

    fn differs_from(&self, next: &Self) -> (b: bool) {
        self.fingerprint != next.fingerprint
    }

    fn report_modified(&self, next: &Self, next_owner: &str, changes: &mut Vec<Change>) {
        let d = concat5("Device '", next.name.as_str(), "' on track '", next_owner, "' changed");
        push_change(changes, ChangeType::DeviceStateChanged, &next.id, next.name.clone(), d);
    }

    fn report_removed(&self, base_owner: &str, changes: &mut Vec<Change>) {
        let d = concat5(
            "Device '",
            self.name.as_str(),
            "' on track '",
            base_owner,
            "' was removed",
        );
        push_change(changes, ChangeType::DeviceRemoved, &self.id, self.name.clone(), d);
    }

    fn report_added(&self, next_owner: &str, changes: &mut Vec<Change>) {
        let d = concat5("Device '", self.name.as_str(), "' on track '", next_owner, "' was added");
        push_change(changes, ChangeType::DeviceAdded, &self.id, self.name.clone(), d);
    }
}

/// Assets belong to no track: the owner names are not used.
impl Reported for AssetIndex {
    open spec fn differs(&self, next: &Self) -> bool {
        self.hash@ != next.hash@
    }

    open spec fn on_modified(&self, next: &Self, next_owner: Seq<char>) -> Seq<ChangeView> {
        seq![
            change_of(
                ChangeType::AssetChanged,
                next.path@,
                next.path@,
                "Asset '"@ + next.path@ + "' content changed"@,
            ),
        ]
    }

    open spec fn on_removed(&self, base_owner: Seq<char>) -> Seq<ChangeView> {
        seq![
            change_of(
                ChangeType::AssetRemoved,
                self.path@,
                self.path@,
                "Asset '"@ + self.path@ + "' was removed"@,
            ),
        ]
    }

    open spec fn on_added(&self, next_owner: Seq<char>) -> Seq<ChangeView> {
        seq![
            change_of(
                ChangeType::AssetAdded,
                self.path@,
                self.path@,
                "Asset '"@ + self.path@ + "' was added"@,
            ),
        ]
    }

    fn differs_from(&self, next: &Self) -> (b: bool) {
        self.hash != next.hash
    }

    fn report_modified(&self, next: &Self, next_owner: &str, changes: &mut Vec<Change>) {
        let d = concat3("Asset '", next.path.as_str(), "' content changed");
        push_change(changes, ChangeType::AssetChanged, &next.path, next.path.clone(), d);
    }

    fn report_removed(&self, base_owner: &str, changes: &mut Vec<Change>) {
        let d = concat3("Asset '", self.path.as_str(), "' was removed");
        push_change(changes, ChangeType::AssetRemoved, &self.path, self.path.clone(), d);
    }

    fn report_added(&self, next_owner: &str, changes: &mut Vec<Change>) {
        let d = concat3("Asset '", self.path.as_str(), "' was added");
        push_change(changes, ChangeType::AssetAdded, &self.path, self.path.clone(), d);
    }
}

/// What is reported for older entity `i` given its partner.
pub open spec fn per_of<T: Reported>(
    base: Seq<T>,
    next: Seq<T>,
    base_owner: Seq<char>,
    next_owner: Seq<char>,
) -> spec_fn(int, Option<int>) -> Seq<ChangeView> {
    |i: int, m: Option<int>|
        match m {
            Some(j) => if base[i].differs(&next[j]) {
                base[i].on_modified(&next[j], next_owner)
            } else {
                Seq::empty()
            },
            None => base[i].on_removed(base_owner),
        }
}

pub open spec fn added_of<T: Reported>(next: Seq<T>, next_owner: Seq<char>) -> spec_fn(int) -> Seq<
    ChangeView,
> {
    |j: int| next[j].on_added(next_owner)
}

/// The changes between two lists of entities.
pub open spec fn list_changes<T: Reported>(
    base: Seq<T>,
    next: Seq<T>,
    base_owner: Seq<char>,
    next_owner: Seq<char>,
) -> Seq<ChangeView> {
    greedy_changes(
        base.len(),
        next.len(),
        finder(base, next),
        per_of(base, next, base_owner, next_owner),
        added_of(next, next_owner),
    )
}

fn all_free(n: usize) -> (used: Vec<bool>)
    ensures
        used@ == Seq::new(n as nat, |j: int| false),
{
    let mut used: Vec<bool> = Vec::new();
    while used.len() < n
        invariant
            used.len() <= n,
            forall|j: int| 0 <= j < used.len() ==> !used@[j],
        decreases n - used.len(),
    {
        used.push(false);
    }
    assert(used@ =~= Seq::new(n as nat, |j: int| false));
    used
}

/// Reports, for each entity of `next` left free in `used`, that it was added.
fn report_unmatched<T: Reported>(
    next: &Vec<T>,
    used: &Vec<bool>,
    next_owner: &str,
    changes: &mut Vec<Change>,
)
    requires
        used.len() == next.len(),
    ensures
        change_views(final(changes)@) == change_views(old(changes)@) + added_part(
            used@,
            added_of(next@, next_owner@),
            next.len() as nat,
        ),
{
    let ghost start = change_views(changes@);
    let ghost added = added_of(next@, next_owner@);
    let mut j: usize = 0;
    while j < next.len()
        invariant
            j <= next.len(),
            used.len() == next.len(),
            added == added_of(next@, next_owner@),
            change_views(changes@) == start + added_part(used@, added, j as nat),
        decreases next.len() - j,
    {
        if !used[j] {
            next[j].report_added(next_owner, changes);
        }
        proof {
            assert(start + added_part(used@, added, j as nat) + (if !used@[j as int] {
                added(j as int)
            } else {
                Seq::empty()
            }) =~= start + added_part(used@, added, (j + 1) as nat));
        }
        j = j + 1;
    }
}

/// Appends the changes between two lists of entities.
fn diff_list<T: Reported>(
    base: &Vec<T>,
    next: &Vec<T>,
    base_owner: &str,
    next_owner: &str,
    changes: &mut Vec<Change>,
)
    ensures
        change_views(final(changes)@) == change_views(old(changes)@) + list_changes(
            base@,
            next@,
            base_owner@,
            next_owner@,
        ),
{
    let ghost start = change_views(changes@);
    let ghost n = next.len() as nat;
    let ghost find = finder(base@, next@);
    let ghost per = per_of(base@, next@, base_owner@, next_owner@);
    let mut used = all_free(next.len());
    let mut i: usize = 0;
    while i < base.len()
        invariant
            i <= base.len(),
            n == next.len(),
            find == finder(base@, next@),
            per == per_of(base@, next@, base_owner@, next_owner@),
            used@ == greedy_used(n, find, i as nat),
            used.len() == next.len(),
            change_views(changes@) == start + matched_part(n, find, per, i as nat),
        decreases base.len() - i,
    {
        let b = &base[i];
        let m = find_partner(next, b, &used);
        assert(find(i as int, used@) == opt_index(m));
        match m {
            Some(j) => {
                used.set(j, true);
                if b.differs_from(&next[j]) {
                    b.report_modified(&next[j], next_owner, changes);
                }
            },
            None => {
                b.report_removed(base_owner, changes);
            },
        }
        proof {
            assert(start + matched_part(n, find, per, i as nat) + per(i as int, opt_index(m))
                =~= start + matched_part(n, find, per, (i + 1) as nat));
        }
        i = i + 1;
    }
    report_unmatched(next, &used, next_owner, changes);
    assert(start + matched_part(n, find, per, base.len() as nat) + added_part(
        used@,
        added_of(next@, next_owner@),
        n,
    ) =~= start + list_changes(base@, next@, base_owner@, next_owner@));
}

// ---------------------------------------------------------------------------
// Tracks and whole indexes.
// ---------------------------------------------------------------------------

/// What is reported for a track that matched and whose fingerprint changed:
/// the track itself, then its clips, then its devices.
pub open spec fn track_modified_changes(b: TrackIndex, n: TrackIndex) -> Seq<ChangeView> {
    seq![
        change_of(
            ChangeType::TrackModified,
            n.id@,
            n.name@,
            "Track '"@ + n.name@ + "' was modified"@,
        ),
    ] + list_changes(b.clips@, n.clips@, b.name@, n.name@) + list_changes(
        b.devices@,
        n.devices@,
        b.name@,
        n.name@,
    )
}

pub open spec fn track_removed(t: TrackIndex) -> ChangeView {
    change_of(ChangeType::TrackRemoved, t.id@, t.name@, "Track '"@ + t.name@ + "' was removed"@)
}

pub open spec fn track_added(t: TrackIndex) -> ChangeView {
    change_of(ChangeType::TrackAdded, t.id@, t.name@, "Track '"@ + t.name@ + "' was added"@)
}

pub open spec fn track_per(base: Seq<TrackIndex>, next: Seq<TrackIndex>) -> spec_fn(
    int,
    Option<int>,
) -> Seq<ChangeView> {
    |i: int, m: Option<int>|
        match m {
            Some(j) => if base[i].fingerprint@ != next[j].fingerprint@ {
                track_modified_changes(base[i], next[j])
            } else {
                Seq::empty()
            },
            None => seq![track_removed(base[i])],
        }
}

pub open spec fn track_add(next: Seq<TrackIndex>) -> spec_fn(int) -> Seq<ChangeView> {
    |j: int| seq![track_added(next[j])]
}

/// The changes between two lists of tracks.
pub open spec fn track_changes(base: Seq<TrackIndex>, next: Seq<TrackIndex>) -> Seq<ChangeView> {
    greedy_changes(base.len(), next.len(), finder(base, next), track_per(base, next), track_add(next))
}

fn report_track_added(t: &TrackIndex, changes: &mut Vec<Change>)
    ensures
        change_views(final(changes)@) == change_views(old(changes)@).push(track_added(*t)),
{
    let d = concat3("Track '", t.name.as_str(), "' was added");
    push_change(changes, ChangeType::TrackAdded, &t.id, t.name.clone(), d);
}

fn diff_tracks(base: &Vec<TrackIndex>, next: &Vec<TrackIndex>, changes: &mut Vec<Change>)
    ensures
        change_views(final(changes)@) == change_views(old(changes)@) + track_changes(base@, next@),
{
    let ghost start = change_views(changes@);
    let ghost n = next.len() as nat;
    let ghost find = finder(base@, next@);
    let ghost per = track_per(base@, next@);
    let ghost on_add = track_add(next@);
    let mut used = all_free(next.len());
    let mut i: usize = 0;
    while i < base.len()
        invariant
            i <= base.len(),
            n == next.len(),
            find == finder(base@, next@),
            per == track_per(base@, next@),
            used@ == greedy_used(n, find, i as nat),
            used.len() == next.len(),
            change_views(changes@) == start + matched_part(n, find, per, i as nat),
        decreases base.len() - i,
    {
        let b = &base[i];
        let ghost before = change_views(changes@);
        let m = find_partner(next, b, &used);
        assert(find(i as int, used@) == opt_index(m));
        match m {
            Some(j) => {
                used.set(j, true);
                let nt = &next[j];
                if b.fingerprint != nt.fingerprint {
                    let d = concat3("Track '", nt.name.as_str(), "' was modified");
                    push_change(changes, ChangeType::TrackModified, &nt.id, nt.name.clone(), d);
                    diff_list(&b.clips, &nt.clips, b.name.as_str(), nt.name.as_str(), changes);
                    diff_list(&b.devices, &nt.devices, b.name.as_str(), nt.name.as_str(), changes);
                    assert(change_views(changes@) =~= before + track_modified_changes(*b, *nt));
                }
            },
            None => {
                let d = concat3("Track '", b.name.as_str(), "' was removed");
                push_change(changes, ChangeType::TrackRemoved, &b.id, b.name.clone(), d);
            },
        }
        proof {
            assert(start + matched_part(n, find, per, i as nat) + per(i as int, opt_index(m))
                =~= start + matched_part(n, find, per, (i + 1) as nat));
        }
        i = i + 1;
    }
    let mut j: usize = 0;
    let ghost mid = change_views(changes@);
    while j < next.len()
        invariant
            j <= next.len(),
            used.len() == next.len(),
            on_add == track_add(next@),
            change_views(changes@) == mid + added_part(used@, on_add, j as nat),
        decreases next.len() - j,
    {
        if !used[j] {
            report_track_added(&next[j], changes);
        }
        proof {
            assert(mid + added_part(used@, on_add, j as nat) + (if !used@[j as int] {
                on_add(j as int)
            } else {
                Seq::empty()
            }) =~= mid + added_part(used@, on_add, (j + 1) as nat));
        }
        j = j + 1;
    }
    assert(change_views(changes@) =~= start + track_changes(base@, next@));
}

/// How a tempo is reported.
pub open spec fn tempo_label(t: Option<NumberValue>) -> Seq<char> {
    match t {
        Some(v) => v.text@,
        None => "unknown"@,
    }
}

fn tempo_label_of(t: &Option<NumberValue>) -> (r: String)
    ensures
        r@ == tempo_label(*t),
{
    match t {
        Some(v) => v.text.clone(),
        None => String::from_str("unknown"),
    }
}

/// The tempo change between two indexes, if the tempos differ.
pub open spec fn tempo_changes(base: SemanticIndex, next: SemanticIndex) -> Seq<ChangeView> {
    if !opt_number_eq(base.tempo, next.tempo) {
        seq![
            change_of(
                ChangeType::TempoChanged,
                "tempo"@,
                "Tempo"@,
                "Tempo changed from "@ + tempo_label(base.tempo) + " to "@ + tempo_label(next.tempo)
                    + " BPM"@,
            ),
        ]
    } else {
        Seq::empty()
    }
}

/// All changes from `base` to `next`: tempo, then tracks (with their clips
/// and devices), then assets.
pub open spec fn index_changes(base: SemanticIndex, next: SemanticIndex) -> Seq<ChangeView> {
    tempo_changes(base, next) + track_changes(base.tracks@, next.tracks@) + list_changes(
        base.assets@,
        next.assets@,
        Seq::empty(),
        Seq::empty(),
    )
}

/// The changes of a first snapshot: every track added, then every asset added.
pub open spec fn initial_changes(next: SemanticIndex) -> Seq<ChangeView> {
    added_part(
        Seq::new(next.tracks@.len(), |j: int| false),
        track_add(next.tracks@),
        next.tracks@.len(),
    ) + added_part(
        Seq::new(next.assets@.len(), |j: int| false),
        added_of(next.assets@, Seq::empty()),
        next.assets@.len(),
    )
}

/// The changes from `base` (none for a first snapshot) to `next`.
pub fn diff_indexes(base: Option<&SemanticIndex>, next: &SemanticIndex) -> (d: ProjectDiff)
    ensures
        d.to_snapshot@ == next.snapshot_id@,
        !d.has_conflicts,
        match base {
            Some(b) => {
                &&& d.from_snapshot is Some
                &&& d.from_snapshot.unwrap()@ == b.snapshot_id@
                &&& change_views(d.changes@) == index_changes(*b, *next)
            },
            None => {
                &&& d.from_snapshot is None
                &&& change_views(d.changes@) == initial_changes(*next)
            },
        },
{
    let mut changes: Vec<Change> = Vec::new();
    assert(change_views(changes@) =~= Seq::empty());
    match base {
        Some(b) => {
            if !opt_number_equal(&b.tempo, &next.tempo) {
                let from = tempo_label_of(&b.tempo);
                let to = tempo_label_of(&next.tempo);
                let d = concat5("Tempo changed from ", from.as_str(), " to ", to.as_str(), " BPM");
                let id = String::from_str("tempo");
                push_change(&mut changes, ChangeType::TempoChanged, &id, String::from_str("Tempo"), d);
            }
            assert(change_views(changes@) =~= tempo_changes(*b, *next));
            diff_tracks(&b.tracks, &next.tracks, &mut changes);
            diff_list(&b.assets, &next.assets, "", "", &mut changes);
            proof {
                reveal_strlit("");
                assert(""@ =~= Seq::<char>::empty());
            }
            assert(change_views(changes@) =~= index_changes(*b, *next));
            ProjectDiff {
                from_snapshot: Some(b.snapshot_id.clone()),
                to_snapshot: next.snapshot_id.clone(),
                changes,
                has_conflicts: false,
            }
        },
        None => {
            let no_tracks = all_free(next.tracks.len());
            let mut j: usize = 0;
            let ghost on_add = track_add(next.tracks@);
            while j < next.tracks.len()
                invariant
                    j <= next.tracks.len(),
                    no_tracks@ == Seq::new(next.tracks@.len(), |k: int| false),
                    on_add == track_add(next.tracks@),
                    change_views(changes@) == added_part(no_tracks@, on_add, j as nat),
                decreases next.tracks.len() - j,
            {
                report_track_added(&next.tracks[j], &mut changes);
                assert(added_part(no_tracks@, on_add, j as nat) + on_add(j as int) =~= added_part(
                    no_tracks@,
                    on_add,
                    (j + 1) as nat,
                ));
                j = j + 1;
            }
            let no_assets = all_free(next.assets.len());
            report_unmatched(&next.assets, &no_assets, "", &mut changes);
            proof {
                reveal_strlit("");
                assert(""@ =~= Seq::<char>::empty());
            }
            assert(change_views(changes@) =~= initial_changes(*next));
            ProjectDiff {
                from_snapshot: None,
                to_snapshot: next.snapshot_id.clone(),
                changes,
                has_conflicts: false,
            }
        },
    }
}

// ---------------------------------------------------------------------------
// Laws.
// ---------------------------------------------------------------------------

proof fn lemma_first_free_at(used: Seq<bool>, p: spec_fn(int) -> bool, i: int, k: int)
    requires
        0 <= k <= i < used.len(),
        forall|m: int| k <= m < i ==> used[m],
        !used[i],
        p(i),
    ensures
        first_free(used, p, k) == Some(i),
    decreases i - k,
{
    if k < i {
        lemma_first_free_at(used, p, i, k + 1);
    }
}

/// The first `i` of `n` slots taken.
pub open spec fn prefix_taken(n: nat, i: int) -> Seq<bool> {
    Seq::new(n, |j: int| j < i)
}

/// Matching a list against itself pairs every entity with itself.
proof fn lemma_self_matching<T: Matchable>(s: Seq<T>, i: nat)
    requires
        i <= s.len(),
        forall|k: int| 0 <= k < s.len() ==> #[trigger] s[k].same_by(&s[k], MatchKey::Identity),
    ensures
        greedy_used(s.len(), finder(s, s), i) == prefix_taken(s.len(), i as int),
        forall|k: int|
            0 <= k < i ==> #[trigger] finder(s, s)(k, greedy_used(s.len(), finder(s, s), k as nat))
                == Some(k),
    decreases i,
{
    if i > 0 {
        lemma_self_matching(s, (i - 1) as nat);
        let u = prefix_taken(s.len(), i - 1);
        lemma_first_free_at(u, key_pred(s, s[i - 1], MatchKey::Identity), i - 1, 0);
        assert(finder(s, s)(i - 1, u) == Some(i - 1));
        assert(u.update(i - 1, true) =~= prefix_taken(s.len(), i as int));
    }
}

proof fn lemma_matched_part_empty(
    n: nat,
    find: spec_fn(int, Seq<bool>) -> Option<int>,
    per: spec_fn(int, Option<int>) -> Seq<ChangeView>,
    i: nat,
)
    requires
        forall|k: int| 0 <= k < i ==> #[trigger] per(k, find(k, greedy_used(n, find, k as nat)))
            == Seq::<ChangeView>::empty(),
    ensures
        matched_part(n, find, per, i) == Seq::<ChangeView>::empty(),
    decreases i,
{
    if i > 0 {
        lemma_matched_part_empty(n, find, per, (i - 1) as nat);
        let k = i - 1;
        assert(per(k, find(k, greedy_used(n, find, k as nat))) == Seq::<ChangeView>::empty());
        assert(matched_part(n, find, per, i) =~= Seq::<ChangeView>::empty());
    }
}

proof fn lemma_added_part_empty(used: Seq<bool>, added: spec_fn(int) -> Seq<ChangeView>, j: nat)
    requires
        j <= used.len(),
        forall|m: int| 0 <= m < j ==> used[m],
    ensures
        added_part(used, added, j) == Seq::<ChangeView>::empty(),
    decreases j,
{
    if j > 0 {
        lemma_added_part_empty(used, added, (j - 1) as nat);
        assert(added_part(used, added, j) =~= Seq::<ChangeView>::empty());
    }
}

proof fn lemma_list_with_itself<T: Reported>(s: Seq<T>, o: Seq<char>)
    requires
        forall|k: int| 0 <= k < s.len() ==> #[trigger] s[k].same_by(&s[k], MatchKey::Identity),
        forall|k: int| 0 <= k < s.len() ==> !(#[trigger] s[k].differs(&s[k])),
    ensures
        list_changes(s, s, o, o) == Seq::<ChangeView>::empty(),
{
    let find = finder(s, s);
    let per = per_of(s, s, o, o);
    lemma_self_matching(s, s.len());
    assert forall|k: int| 0 <= k < s.len() implies #[trigger] per(
        k,
        find(k, greedy_used(s.len(), find, k as nat)),
    ) == Seq::<ChangeView>::empty() by {
        assert(find(k, greedy_used(s.len(), find, k as nat)) == Some(k));
    }
    lemma_matched_part_empty(s.len(), find, per, s.len());
    lemma_added_part_empty(greedy_used(s.len(), find, s.len()), added_of(s, o), s.len());
}

/// Comparing an index with itself reports nothing, provided its tempo is not
/// NaN (a NaN tempo differs from itself and is reported as a tempo change).
pub proof fn lemma_diff_with_itself_is_empty(x: SemanticIndex)
    requires
        x.tempo matches Some(v) ==> !f64_bits_is_nan(v.bits),
    ensures
        index_changes(x, x) == Seq::<ChangeView>::empty(),
{
    let s = x.tracks@;
    let find = finder(s, s);
    let per = track_per(s, s);
    lemma_self_matching(s, s.len());
    assert forall|k: int| 0 <= k < s.len() implies #[trigger] per(
        k,
        find(k, greedy_used(s.len(), find, k as nat)),
    ) == Seq::<ChangeView>::empty() by {
        assert(find(k, greedy_used(s.len(), find, k as nat)) == Some(k));
    }
    lemma_matched_part_empty(s.len(), find, per, s.len());
    lemma_added_part_empty(greedy_used(s.len(), find, s.len()), track_add(s), s.len());
    lemma_list_with_itself(x.assets@, Seq::empty());
    assert(index_changes(x, x) =~= Seq::<ChangeView>::empty());
}

/// Comparing against an index without tracks and assets and with an equal
/// tempo reports what a first snapshot reports: every track and every asset
/// as added.
pub proof fn lemma_diff_from_empty_is_initial(e: SemanticIndex, n: SemanticIndex)
    requires
        e.tracks@.len() == 0,
        e.assets@.len() == 0,
        opt_number_eq(e.tempo, n.tempo),
    ensures
        index_changes(e, n) == initial_changes(n),
{
    assert(greedy_used(n.tracks@.len(), finder(e.tracks@, n.tracks@), 0) =~= Seq::new(
        n.tracks@.len(),
        |j: int| false,
    ));
    assert(greedy_used(n.assets@.len(), finder(e.assets@, n.assets@), 0) =~= Seq::new(
        n.assets@.len(),
        |j: int| false,
    ));
    assert(index_changes(e, n) =~= initial_changes(n));
}

// ---------------------------------------------------------------------------
// The order of a change list.
// ---------------------------------------------------------------------------

/// Every change of `s` has a kind that `p` accepts.
pub open spec fn all_of(s: Seq<ChangeView>, p: spec_fn(ChangeType) -> bool) -> bool {
    forall|i: int| 0 <= i < s.len() ==> p(#[trigger] s[i].change_type)
}

/// A change of a track, or of a clip or device on a track.
pub open spec fn is_track_kind(t: ChangeType) -> bool {
    ||| t == ChangeType::TrackAdded
    ||| t == ChangeType::TrackRemoved
    ||| t == ChangeType::TrackModified
    ||| t == ChangeType::ClipAdded
    ||| t == ChangeType::ClipRemoved
    ||| t == ChangeType::ClipModified
    ||| t == ChangeType::DeviceAdded
    ||| t == ChangeType::DeviceRemoved
    ||| t == ChangeType::DeviceStateChanged
}

/// A change of an audio file.
pub open spec fn is_asset_kind(t: ChangeType) -> bool {
    ||| t == ChangeType::AssetAdded
    ||| t == ChangeType::AssetRemoved
    ||| t == ChangeType::AssetChanged
}

proof fn lemma_all_of_concat(a: Seq<ChangeView>, b: Seq<ChangeView>, p: spec_fn(ChangeType) -> bool)
    requires
        all_of(a, p),
        all_of(b, p),
    ensures
        all_of(a + b, p),
{
    assert forall|i: int| 0 <= i < (a + b).len() implies p(#[trigger] (a + b)[i].change_type) by {
        if i < a.len() {
            assert((a + b)[i] == a[i]);
        } else {
            assert((a + b)[i] == b[i - a.len()]);
        }
    }
}

proof fn lemma_matched_part_all(
    n: nat,
    find: spec_fn(int, Seq<bool>) -> Option<int>,
    per: spec_fn(int, Option<int>) -> Seq<ChangeView>,
    i: nat,
    p: spec_fn(ChangeType) -> bool,
)
    requires
        forall|k: int, m: Option<int>| all_of(#[trigger] per(k, m), p),
    ensures
        all_of(matched_part(n, find, per, i), p),
    decreases i,
{
    if i > 0 {
        lemma_matched_part_all(n, find, per, (i - 1) as nat, p);
        let m = find(i - 1, greedy_used(n, find, (i - 1) as nat));
        assert(all_of(per(i - 1, m), p));
        lemma_all_of_concat(matched_part(n, find, per, (i - 1) as nat), per(i - 1, m), p);
    }
}

proof fn lemma_added_part_all(
    used: Seq<bool>,
    added: spec_fn(int) -> Seq<ChangeView>,
    j: nat,
    p: spec_fn(ChangeType) -> bool,
)
    requires
        forall|k: int| all_of(#[trigger] added(k), p),
    ensures
        all_of(added_part(used, added, j), p),
    decreases j,
{
    if j > 0 {
        lemma_added_part_all(used, added, (j - 1) as nat, p);
        let last = if !used[j - 1] {
            added(j - 1)
        } else {
            Seq::empty()
        };
        assert(all_of(last, p));
        lemma_all_of_concat(added_part(used, added, (j - 1) as nat), last, p);
    }
}

proof fn lemma_greedy_changes_all(
    n_base: nat,
    n_next: nat,
    find: spec_fn(int, Seq<bool>) -> Option<int>,
    per: spec_fn(int, Option<int>) -> Seq<ChangeView>,
    added: spec_fn(int) -> Seq<ChangeView>,
    p: spec_fn(ChangeType) -> bool,
)
    requires
        forall|k: int, m: Option<int>| all_of(#[trigger] per(k, m), p),
        forall|k: int| all_of(#[trigger] added(k), p),
    ensures
        all_of(greedy_changes(n_base, n_next, find, per, added), p),
{
    lemma_matched_part_all(n_next, find, per, n_base, p);
    lemma_added_part_all(greedy_used(n_next, find, n_base), added, n_next, p);
    lemma_all_of_concat(
        matched_part(n_next, find, per, n_base),
        added_part(greedy_used(n_next, find, n_base), added, n_next),
        p,
    );
}

proof fn lemma_track_changes_kinds(base: Seq<TrackIndex>, next: Seq<TrackIndex>)
    ensures
        all_of(track_changes(base, next), |t: ChangeType| is_track_kind(t)),
{
    let p = |t: ChangeType| is_track_kind(t);
    assert forall|b: Seq<ClipIndex>, n: Seq<ClipIndex>, bo: Seq<char>, no: Seq<char>|
        all_of(#[trigger] list_changes(b, n, bo, no), p) by {
        lemma_greedy_changes_all(b.len(), n.len(), finder(b, n), per_of(b, n, bo, no), added_of(n, no), p);
    }
    assert forall|b: Seq<DeviceIndex>, n: Seq<DeviceIndex>, bo: Seq<char>, no: Seq<char>|
        all_of(#[trigger] list_changes(b, n, bo, no), p) by {
        lemma_greedy_changes_all(b.len(), n.len(), finder(b, n), per_of(b, n, bo, no), added_of(n, no), p);
    }
    assert forall|k: int, m: Option<int>| all_of(#[trigger] track_per(base, next)(k, m), p) by {
        if let Some(j) = m {
            if base[k].fingerprint@ != next[j].fingerprint@ {
                let head = seq![
                    change_of(
                        ChangeType::TrackModified,
                        next[j].id@,
                        next[j].name@,
                        "Track '"@ + next[j].name@ + "' was modified"@,
                    ),
                ];
                let clips = list_changes(base[k].clips@, next[j].clips@, base[k].name@, next[j].name@);
                let devices = list_changes(
                    base[k].devices@,
                    next[j].devices@,
                    base[k].name@,
                    next[j].name@,
                );
                assert(all_of(head, p));
                assert(all_of(clips, p));
                assert(all_of(devices, p));
                lemma_all_of_concat(head, clips, p);
                lemma_all_of_concat(head + clips, devices, p);
            }
        }
    }
    lemma_greedy_changes_all(base.len(), next.len(), finder(base, next), track_per(base, next), track_add(next), p);
}

/// A change list reports the tempo first, then tracks with their clips and
/// devices, then audio files: a tempo change can only come first, and no
/// track, clip or device change follows a change of an audio file.
pub proof fn lemma_changes_in_order(b: SemanticIndex, n: SemanticIndex)
    ensures
        forall|i: int|
            0 < i < index_changes(b, n).len() ==> #[trigger] index_changes(b, n)[i].change_type
                != ChangeType::TempoChanged,
        forall|i: int, j: int|
            0 <= i < j < index_changes(b, n).len() && is_track_kind(
                #[trigger] index_changes(b, n)[j].change_type,
            ) ==> !is_asset_kind(#[trigger] index_changes(b, n)[i].change_type),
{
    let t = tempo_changes(b, n);
    let tr = track_changes(b.tracks@, n.tracks@);
    let a = list_changes(b.assets@, n.assets@, Seq::empty(), Seq::empty());
    lemma_track_changes_kinds(b.tracks@, n.tracks@);
    let pa = |k: ChangeType| is_asset_kind(k);
    lemma_greedy_changes_all(
        b.assets@.len(),
        n.assets@.len(),
        finder(b.assets@, n.assets@),
        per_of(b.assets@, n.assets@, Seq::<char>::empty(), Seq::<char>::empty()),
        added_of(n.assets@, Seq::<char>::empty()),
        pa,
    );
    let c = index_changes(b, n);
    assert(c == t + tr + a);
    assert(t.len() <= 1);
    assert forall|i: int| 0 < i < c.len() implies #[trigger] c[i].change_type
        != ChangeType::TempoChanged by {
        if i < t.len() + tr.len() {
            assert(c[i] == tr[i - t.len()]);
            assert(is_track_kind(tr[i - t.len()].change_type));
        } else {
            assert(c[i] == a[i - t.len() - tr.len()]);
            assert(is_asset_kind(a[i - t.len() - tr.len()].change_type));
        }
    }
    assert forall|i: int, j: int|
        0 <= i < j < c.len() && is_track_kind(#[trigger] c[j].change_type) implies !is_asset_kind(
        #[trigger] c[i].change_type,
    ) by {
        if j >= t.len() + tr.len() {
            assert(c[j] == a[j - t.len() - tr.len()]);
            assert(is_asset_kind(a[j - t.len() - tr.len()].change_type));
        } else if i < t.len() {
            assert(c[i] == t[i]);
        } else {
            assert(c[i] == tr[i - t.len()]);
            assert(is_track_kind(tr[i - t.len()].change_type));
        }
    }
}

// ---------------------------------------------------------------------------
// Counting a change list.
// ---------------------------------------------------------------------------

/// How many changes of `s` are of kind `t`.
pub open spec fn count_kind(s: Seq<ChangeView>, t: ChangeType) -> nat
    decreases s.len(),
{
    if s.len() == 0 {
        0
    } else {
        count_kind(s.drop_last(), t) + if s.last().change_type == t {
            1nat
        } else {
            0nat
        }
    }
}

proof fn lemma_count_concat(a: Seq<ChangeView>, b: Seq<ChangeView>, t: ChangeType)
    ensures
        count_kind(a + b, t) == count_kind(a, t) + count_kind(b, t),
    decreases b.len(),
{
    if b.len() == 0 {
        assert(a + b =~= a);
    } else {
        lemma_count_concat(a, b.drop_last(), t);
        assert((a + b).drop_last() =~= a + b.drop_last());
    }
}

proof fn lemma_count_none(s: Seq<ChangeView>, t: ChangeType)
    requires
        all_of(s, |k: ChangeType| k != t),
    ensures
        count_kind(s, t) == 0,
    decreases s.len(),
{
    if s.len() > 0 {
        assert(s[s.len() - 1].change_type != t);
        lemma_count_none(s.drop_last(), t);
    }
}

/// How many of the first `j` slots of `u` are taken.
pub open spec fn taken(u: Seq<bool>, j: int) -> nat
    decreases j,
{
    if j <= 0 {
        0
    } else {
        taken(u, j - 1) + if u[j - 1] {
            1nat
        } else {
            0nat
        }
    }
}

proof fn lemma_taken_none(n: nat, j: int)
    requires
        0 <= j <= n,
    ensures
        taken(Seq::new(n, |m: int| false), j) == 0,
    decreases j,
{
    if j > 0 {
        lemma_taken_none(n, j - 1);
    }
}

proof fn lemma_taken_update(u: Seq<bool>, k: int, j: int)
    requires
        0 <= k < u.len(),
        !u[k],
        0 <= j <= u.len(),
    ensures
        taken(u.update(k, true), j) == taken(u, j) + if k < j {
            1nat
        } else {
            0nat
        },
    decreases j,
{
    if j > 0 {
        lemma_taken_update(u, k, j - 1);
    }
}

/// How many of the first `i` older entities found a partner.
pub open spec fn partnered(n: nat, find: spec_fn(int, Seq<bool>) -> Option<int>, i: nat) -> nat
    decreases i,
{
    if i == 0 {
        0
    } else {
        partnered(n, find, (i - 1) as nat) + if find(i - 1, greedy_used(n, find, (i - 1) as nat)) is Some {
            1nat
        } else {
            0nat
        }
    }
}

/// A partner-finding function that only picks free slots.
pub open spec fn picks_free(n: nat, find: spec_fn(int, Seq<bool>) -> Option<int>) -> bool {
    forall|k: int, u: Seq<bool>|
        u.len() == n ==> (#[trigger] find(k, u) matches Some(j) ==> 0 <= j < n && !u[j])
}

proof fn lemma_greedy_used_taken(n: nat, find: spec_fn(int, Seq<bool>) -> Option<int>, i: nat)
    requires
        picks_free(n, find),
    ensures
        greedy_used(n, find, i).len() == n,
        taken(greedy_used(n, find, i), n as int) == partnered(n, find, i),
    decreases i,
{
    if i == 0 {
        lemma_taken_none(n, n as int);
    } else {
        lemma_greedy_used_taken(n, find, (i - 1) as nat);
        let u = greedy_used(n, find, (i - 1) as nat);
        if let Some(j) = find(i - 1, u) {
            lemma_taken_update(u, j, n as int);
        }
    }
}

proof fn lemma_first_free_free(used: Seq<bool>, p: spec_fn(int) -> bool, k: int)
    ensures
        first_free(used, p, k) matches Some(j) ==> 0 <= j < used.len() && !used[j],
    decreases used.len() - k,
{
    if 0 <= k < used.len() && !(!used[k] && p(k)) {
        lemma_first_free_free(used, p, k + 1);
    }
}

proof fn lemma_finder_picks_free<T: Matchable>(base: Seq<T>, next: Seq<T>)
    ensures
        picks_free(next.len(), finder(base, next)),
{
    assert forall|k: int, u: Seq<bool>| u.len() == next.len() implies (#[trigger] finder(base, next)(
        k,
        u,
    ) matches Some(j) ==> 0 <= j < next.len() && !u[j]) by {
        let t = base[k];
        lemma_first_free_free(u, key_pred(next, t, MatchKey::Identity), 0);
        lemma_first_free_free(u, key_pred(next, t, MatchKey::Fingerprint), 0);
        lemma_first_free_free(u, key_pred(next, t, MatchKey::Fallback), 0);
    }
}

/// The matched part counts kind `t` once for each entity without a partner.
proof fn lemma_matched_count_unpartnered(
    n: nat,
    find: spec_fn(int, Seq<bool>) -> Option<int>,
    per: spec_fn(int, Option<int>) -> Seq<ChangeView>,
    i: nat,
    t: ChangeType,
)
    requires
        forall|k: int| count_kind(#[trigger] per(k, None), t) == 1,
        forall|k: int, j: int| count_kind(#[trigger] per(k, Some(j)), t) == 0,
    ensures
        count_kind(matched_part(n, find, per, i), t) + partnered(n, find, i) == i,
    decreases i,
{
    if i > 0 {
        lemma_matched_count_unpartnered(n, find, per, (i - 1) as nat, t);
        let m = find(i - 1, greedy_used(n, find, (i - 1) as nat));
        lemma_count_concat(matched_part(n, find, per, (i - 1) as nat), per(i - 1, m), t);
        if let Some(j) = m {
            assert(count_kind(per(i - 1, Some(j)), t) == 0);
        } else {
            assert(count_kind(per(i - 1, None), t) == 1);
        }
    }
}

/// The matched part counts kind `t` at most once for each partnered entity.
proof fn lemma_matched_count_partnered(
    n: nat,
    find: spec_fn(int, Seq<bool>) -> Option<int>,
    per: spec_fn(int, Option<int>) -> Seq<ChangeView>,
    i: nat,
    t: ChangeType,
)
    requires
        forall|k: int| count_kind(#[trigger] per(k, None), t) == 0,
        forall|k: int, j: int| count_kind(#[trigger] per(k, Some(j)), t) <= 1,
    ensures
        count_kind(matched_part(n, find, per, i), t) <= partnered(n, find, i),
    decreases i,
{
    if i > 0 {
        lemma_matched_count_partnered(n, find, per, (i - 1) as nat, t);
        let m = find(i - 1, greedy_used(n, find, (i - 1) as nat));
        lemma_count_concat(matched_part(n, find, per, (i - 1) as nat), per(i - 1, m), t);
        if let Some(j) = m {
            assert(count_kind(per(i - 1, Some(j)), t) <= 1);
        } else {
            assert(count_kind(per(i - 1, None), t) == 0);
        }
    }
}

/// The added part counts kind `t` once for each free slot.
proof fn lemma_added_count(
    used: Seq<bool>,
    added: spec_fn(int) -> Seq<ChangeView>,
    j: nat,
    t: ChangeType,
)
    requires
        j <= used.len(),
        forall|k: int| count_kind(#[trigger] added(k), t) == 1,
    ensures
        count_kind(added_part(used, added, j), t) + taken(used, j as int) == j,
    decreases j,
{
    if j > 0 {
        lemma_added_count(used, added, (j - 1) as nat, t);
        let last = if !used[j - 1] {
            added(j - 1)
        } else {
            Seq::empty()
        };
        lemma_count_concat(added_part(used, added, (j - 1) as nat), last, t);
        if used[j - 1] {
            assert(count_kind(last, t) == 0);
        } else {
            assert(count_kind(added(j - 1), t) == 1);
        }
    }
}

/// Counting kind `t` in a sequence whose changes are all of other kinds.
proof fn lemma_count_zero_when(s: Seq<ChangeView>, p: spec_fn(ChangeType) -> bool, t: ChangeType)
    requires
        all_of(s, p),
        !p(t),
    ensures
        count_kind(s, t) == 0,
{
    assert(all_of(s, |k: ChangeType| k != t));
    lemma_count_none(s, t);
}

proof fn lemma_count_single(x: ChangeView, t: ChangeType)
    ensures
        count_kind(seq![x], t) == if x.change_type == t {
            1nat
        } else {
            0nat
        },
{
    assert(seq![x].drop_last() =~= Seq::<ChangeView>::empty());
    assert(count_kind(Seq::<ChangeView>::empty(), t) == 0);
    assert(seq![x].last() == x);
}

/// A change of a clip or a device.
pub open spec fn is_part_kind(t: ChangeType) -> bool {
    ||| t == ChangeType::ClipAdded
    ||| t == ChangeType::ClipRemoved
    ||| t == ChangeType::ClipModified
    ||| t == ChangeType::DeviceAdded
    ||| t == ChangeType::DeviceRemoved
    ||| t == ChangeType::DeviceStateChanged
}

proof fn lemma_parts_of_tracks(b: TrackIndex, n: TrackIndex)
    ensures
        all_of(
            list_changes(b.clips@, n.clips@, b.name@, n.name@) + list_changes(
                b.devices@,
                n.devices@,
                b.name@,
                n.name@,
            ),
            |k: ChangeType| is_part_kind(k),
        ),
{
    let p = |k: ChangeType| is_part_kind(k);
    let (bc, nc, bd, nd) = (b.clips@, n.clips@, b.devices@, n.devices@);
    lemma_greedy_changes_all(
        bc.len(),
        nc.len(),
        finder(bc, nc),
        per_of(bc, nc, b.name@, n.name@),
        added_of(nc, n.name@),
        p,
    );
    lemma_greedy_changes_all(
        bd.len(),
        nd.len(),
        finder(bd, nd),
        per_of(bd, nd, b.name@, n.name@),
        added_of(nd, n.name@),
        p,
    );
    lemma_all_of_concat(
        list_changes(bc, nc, b.name@, n.name@),
        list_changes(bd, nd, b.name@, n.name@),
        p,
    );
}

/// The counts of added, removed and modified tracks in the track changes.
proof fn lemma_track_counts(base: Seq<TrackIndex>, next: Seq<TrackIndex>)
    ensures
        count_kind(track_changes(base, next), ChangeType::TrackRemoved) + next.len() == count_kind(
            track_changes(base, next),
            ChangeType::TrackAdded,
        ) + base.len(),
        count_kind(track_changes(base, next), ChangeType::TrackRemoved) + count_kind(
            track_changes(base, next),
            ChangeType::TrackModified,
        ) <= base.len(),
        count_kind(track_changes(base, next), ChangeType::TrackAdded) + count_kind(
            track_changes(base, next),
            ChangeType::TrackModified,
        ) <= next.len(),
{
    let nn = next.len();
    let find = finder(base, next);
    let per = track_per(base, next);
    let on_add = track_add(next);
    let used = greedy_used(nn, find, base.len());
    let mp = matched_part(nn, find, per, base.len());
    let ap = added_part(used, on_add, nn);
    lemma_finder_picks_free(base, next);
    lemma_greedy_used_taken(nn, find, base.len());
    assert forall|k: int, j: int| #[trigger] per(k, Some(j)) == Seq::<ChangeView>::empty() || (
    count_kind(per(k, Some(j)), ChangeType::TrackModified) == 1 && count_kind(
        per(k, Some(j)),
        ChangeType::TrackRemoved,
    ) == 0 && count_kind(per(k, Some(j)), ChangeType::TrackAdded) == 0) by {
        if base[k].fingerprint@ != next[j].fingerprint@ {
            let head = seq![
                change_of(
                    ChangeType::TrackModified,
                    next[j].id@,
                    next[j].name@,
                    "Track '"@ + next[j].name@ + "' was modified"@,
                ),
            ];
            let rest = list_changes(base[k].clips@, next[j].clips@, base[k].name@, next[j].name@)
                + list_changes(base[k].devices@, next[j].devices@, base[k].name@, next[j].name@);
            lemma_parts_of_tracks(base[k], next[j]);
            assert(per(k, Some(j)) =~= head + rest);
            lemma_count_concat(head, rest, ChangeType::TrackModified);
            lemma_count_concat(head, rest, ChangeType::TrackRemoved);
            lemma_count_concat(head, rest, ChangeType::TrackAdded);
            lemma_count_single(head[0], ChangeType::TrackModified);
            lemma_count_single(head[0], ChangeType::TrackRemoved);
            lemma_count_single(head[0], ChangeType::TrackAdded);
            assert(head =~= seq![head[0]]);
            lemma_count_zero_when(rest, |k: ChangeType| is_part_kind(k), ChangeType::TrackModified);
            lemma_count_zero_when(rest, |k: ChangeType| is_part_kind(k), ChangeType::TrackRemoved);
            lemma_count_zero_when(rest, |k: ChangeType| is_part_kind(k), ChangeType::TrackAdded);
        }
    }
    assert forall|k: int| count_kind(#[trigger] per(k, None), ChangeType::TrackRemoved) == 1 by {
        lemma_count_single(track_removed(base[k]), ChangeType::TrackRemoved);
    }
    assert forall|k: int| count_kind(#[trigger] per(k, None), ChangeType::TrackAdded) == 0 by {
        lemma_count_single(track_removed(base[k]), ChangeType::TrackAdded);
    }
    assert forall|k: int| count_kind(#[trigger] per(k, None), ChangeType::TrackModified) == 0 by {
        lemma_count_single(track_removed(base[k]), ChangeType::TrackModified);
    }
    assert forall|k: int| count_kind(#[trigger] on_add(k), ChangeType::TrackAdded) == 1 by {
        lemma_count_single(track_added(next[k]), ChangeType::TrackAdded);
    }
    // Removed tracks: one per older track without a partner, none among the added.
    assert forall|k: int, j: int| count_kind(#[trigger] per(k, Some(j)), ChangeType::TrackRemoved) == 0 by {
        assert(per(k, Some(j)) == Seq::<ChangeView>::empty() || count_kind(per(k, Some(j)), ChangeType::TrackRemoved) == 0);
    }
    lemma_matched_count_unpartnered(nn, find, per, base.len(), ChangeType::TrackRemoved);
    // Added tracks: one per free slot, none in the matched part.
    assert forall|k: int, j: int| count_kind(#[trigger] per(k, Some(j)), ChangeType::TrackAdded) <= 1 by {
        assert(per(k, Some(j)) == Seq::<ChangeView>::empty() || count_kind(per(k, Some(j)), ChangeType::TrackAdded) == 0);
    }
    lemma_matched_count_partnered(nn, find, per, base.len(), ChangeType::TrackAdded);
    lemma_added_count(used, on_add, nn, ChangeType::TrackAdded);
    // Modified tracks: at most one per partnered older track.
    assert forall|k: int, j: int| count_kind(#[trigger] per(k, Some(j)), ChangeType::TrackModified) <= 1 by {
        assert(per(k, Some(j)) == Seq::<ChangeView>::empty() || count_kind(per(k, Some(j)), ChangeType::TrackModified) == 1);
    }
    lemma_matched_count_partnered(nn, find, per, base.len(), ChangeType::TrackModified);
    // The added part holds only `TrackAdded`.
    lemma_added_part_all(used, on_add, nn, |k: ChangeType| k == ChangeType::TrackAdded);
    lemma_count_zero_when(ap, |k: ChangeType| k == ChangeType::TrackAdded, ChangeType::TrackRemoved);
    lemma_count_zero_when(ap, |k: ChangeType| k == ChangeType::TrackAdded, ChangeType::TrackModified);
    lemma_count_concat(mp, ap, ChangeType::TrackRemoved);
    lemma_count_concat(mp, ap, ChangeType::TrackAdded);
    lemma_count_concat(mp, ap, ChangeType::TrackModified);
    assert(track_changes(base, next) == mp + ap);
    assert(count_kind(mp, ChangeType::TrackAdded) == 0) by {
        lemma_matched_count_zero(nn, find, per, base.len(), ChangeType::TrackAdded);
    }
}

proof fn lemma_matched_count_zero(
    n: nat,
    find: spec_fn(int, Seq<bool>) -> Option<int>,
    per: spec_fn(int, Option<int>) -> Seq<ChangeView>,
    i: nat,
    t: ChangeType,
)
    requires
        forall|k: int, m: Option<int>| count_kind(#[trigger] per(k, m), t) == 0,
    ensures
        count_kind(matched_part(n, find, per, i), t) == 0,
    decreases i,
{
    if i > 0 {
        lemma_matched_count_zero(n, find, per, (i - 1) as nat, t);
        let m = find(i - 1, greedy_used(n, find, (i - 1) as nat));
        lemma_count_concat(matched_part(n, find, per, (i - 1) as nat), per(i - 1, m), t);
    }
}

/// The counts of added, removed and changed audio files in the asset changes.
proof fn lemma_asset_counts(base: Seq<AssetIndex>, next: Seq<AssetIndex>, bo: Seq<char>, no: Seq<char>)
    ensures
        count_kind(list_changes(base, next, bo, no), ChangeType::AssetRemoved) + next.len()
            == count_kind(list_changes(base, next, bo, no), ChangeType::AssetAdded) + base.len(),
        count_kind(list_changes(base, next, bo, no), ChangeType::AssetRemoved) + count_kind(
            list_changes(base, next, bo, no),
            ChangeType::AssetChanged,
        ) <= base.len(),
        count_kind(list_changes(base, next, bo, no), ChangeType::AssetAdded) + count_kind(
            list_changes(base, next, bo, no),
            ChangeType::AssetChanged,
        ) <= next.len(),
{
    let nn = next.len();
    let find = finder(base, next);
    let per = per_of(base, next, bo, no);
    let on_add = added_of(next, no);
    let used = greedy_used(nn, find, base.len());
    let mp = matched_part(nn, find, per, base.len());
    let ap = added_part(used, on_add, nn);
    lemma_finder_picks_free(base, next);
    lemma_greedy_used_taken(nn, find, base.len());
    assert forall|k: int, j: int| #[trigger] per(k, Some(j)) == Seq::<ChangeView>::empty() || per(
        k,
        Some(j),
    ) == seq![base[k].on_modified(&next[j], no)[0]] by {}
    assert forall|k: int, j: int| count_kind(#[trigger] per(k, Some(j)), ChangeType::AssetRemoved) == 0 by {
        if per(k, Some(j)) != Seq::<ChangeView>::empty() {
            lemma_count_single(base[k].on_modified(&next[j], no)[0], ChangeType::AssetRemoved);
        }
    }
    assert forall|k: int, j: int| count_kind(#[trigger] per(k, Some(j)), ChangeType::AssetAdded) <= 1 by {
        if per(k, Some(j)) != Seq::<ChangeView>::empty() {
            lemma_count_single(base[k].on_modified(&next[j], no)[0], ChangeType::AssetAdded);
        }
    }
    assert forall|k: int, j: int| count_kind(#[trigger] per(k, Some(j)), ChangeType::AssetChanged) <= 1 by {
        if per(k, Some(j)) != Seq::<ChangeView>::empty() {
            lemma_count_single(base[k].on_modified(&next[j], no)[0], ChangeType::AssetChanged);
        }
    }
    assert forall|k: int| count_kind(#[trigger] per(k, None), ChangeType::AssetRemoved) == 1 by {
        lemma_count_single(base[k].on_removed(bo)[0], ChangeType::AssetRemoved);
        assert(per(k, None) =~= seq![base[k].on_removed(bo)[0]]);
    }
    assert forall|k: int| count_kind(#[trigger] per(k, None), ChangeType::AssetAdded) == 0 by {
        lemma_count_single(base[k].on_removed(bo)[0], ChangeType::AssetAdded);
        assert(per(k, None) =~= seq![base[k].on_removed(bo)[0]]);
    }
    assert forall|k: int| count_kind(#[trigger] per(k, None), ChangeType::AssetChanged) == 0 by {
        lemma_count_single(base[k].on_removed(bo)[0], ChangeType::AssetChanged);
        assert(per(k, None) =~= seq![base[k].on_removed(bo)[0]]);
    }
    assert forall|k: int| count_kind(#[trigger] on_add(k), ChangeType::AssetAdded) == 1 by {
        lemma_count_single(next[k].on_added(no)[0], ChangeType::AssetAdded);
        assert(on_add(k) =~= seq![next[k].on_added(no)[0]]);
    }
    assert forall|k: int| all_of(#[trigger] on_add(k), |t: ChangeType| t == ChangeType::AssetAdded) by {
        assert(on_add(k) =~= seq![next[k].on_added(no)[0]]);
    }
    lemma_matched_count_unpartnered(nn, find, per, base.len(), ChangeType::AssetRemoved);
    lemma_matched_count_partnered(nn, find, per, base.len(), ChangeType::AssetAdded);
    lemma_matched_count_partnered(nn, find, per, base.len(), ChangeType::AssetChanged);
    lemma_added_count(used, on_add, nn, ChangeType::AssetAdded);
    lemma_added_part_all(used, on_add, nn, |t: ChangeType| t == ChangeType::AssetAdded);
    lemma_count_zero_when(ap, |t: ChangeType| t == ChangeType::AssetAdded, ChangeType::AssetRemoved);
    lemma_count_zero_when(ap, |t: ChangeType| t == ChangeType::AssetAdded, ChangeType::AssetChanged);
    assert forall|k: int, m: Option<int>| count_kind(#[trigger] per(k, m), ChangeType::AssetAdded) == 0 by {
        if let Some(j) = m {
            if per(k, Some(j)) != Seq::<ChangeView>::empty() {
                lemma_count_single(base[k].on_modified(&next[j], no)[0], ChangeType::AssetAdded);
            }
        }
    }
    lemma_matched_count_zero(nn, find, per, base.len(), ChangeType::AssetAdded);
    lemma_count_concat(mp, ap, ChangeType::AssetRemoved);
    lemma_count_concat(mp, ap, ChangeType::AssetAdded);
    lemma_count_concat(mp, ap, ChangeType::AssetChanged);
    assert(list_changes(base, next, bo, no) == mp + ap);
}

/// Counting the change list between two indexes: an older track (audio file)
/// without a partner is reported removed once, a newer one left unmatched
/// is reported added once, and a matched pair is reported modified (changed)
/// at most once. So removed minus added is the older count minus the newer,
/// removed plus modified is at most the older count, and added plus modified
/// at most the newer count.
pub proof fn lemma_change_counts(b: SemanticIndex, n: SemanticIndex)
    ensures
        count_kind(index_changes(b, n), ChangeType::TrackRemoved) + n.tracks@.len() == count_kind(
            index_changes(b, n),
            ChangeType::TrackAdded,
        ) + b.tracks@.len(),
        count_kind(index_changes(b, n), ChangeType::TrackRemoved) + count_kind(
            index_changes(b, n),
            ChangeType::TrackModified,
        ) <= b.tracks@.len(),
        count_kind(index_changes(b, n), ChangeType::TrackAdded) + count_kind(
            index_changes(b, n),
            ChangeType::TrackModified,
        ) <= n.tracks@.len(),
        count_kind(index_changes(b, n), ChangeType::AssetRemoved) + n.assets@.len() == count_kind(
            index_changes(b, n),
            ChangeType::AssetAdded,
        ) + b.assets@.len(),
        count_kind(index_changes(b, n), ChangeType::AssetRemoved) + count_kind(
            index_changes(b, n),
            ChangeType::AssetChanged,
        ) <= b.assets@.len(),
        count_kind(index_changes(b, n), ChangeType::AssetAdded) + count_kind(
            index_changes(b, n),
            ChangeType::AssetChanged,
        ) <= n.assets@.len(),
{
    let t = tempo_changes(b, n);
    let tr = track_changes(b.tracks@, n.tracks@);
    let a = list_changes(b.assets@, n.assets@, Seq::empty(), Seq::empty());
    lemma_track_counts(b.tracks@, n.tracks@);
    lemma_asset_counts(b.assets@, n.assets@, Seq::empty(), Seq::empty());
    lemma_track_changes_kinds(b.tracks@, n.tracks@);
    let pa = |k: ChangeType| is_asset_kind(k);
    let pt = |k: ChangeType| is_track_kind(k);
    lemma_greedy_changes_all(
        b.assets@.len(),
        n.assets@.len(),
        finder(b.assets@, n.assets@),
        per_of(b.assets@, n.assets@, Seq::<char>::empty(), Seq::<char>::empty()),
        added_of(n.assets@, Seq::<char>::empty()),
        pa,
    );
    let pz = |k: ChangeType| k == ChangeType::TempoChanged;
    assert(all_of(t, pz));
    let kinds = seq![
        ChangeType::TrackRemoved,
        ChangeType::TrackAdded,
        ChangeType::TrackModified,
        ChangeType::AssetRemoved,
        ChangeType::AssetAdded,
        ChangeType::AssetChanged,
    ];
    assert forall|i: int| 0 <= i < 6 implies count_kind(index_changes(b, n), #[trigger] kinds[i])
        == count_kind(tr, kinds[i]) + count_kind(a, kinds[i]) by {
        let k = kinds[i];
        lemma_count_zero_when(t, pz, k);
        lemma_count_concat(t, tr, k);
        lemma_count_concat(t + tr, a, k);
        assert(index_changes(b, n) == t + tr + a);
    }
    assert forall|i: int| 0 <= i < 3 implies count_kind(a, #[trigger] kinds[i]) == 0 by {
        lemma_count_zero_when(a, pa, kinds[i]);
    }
    assert forall|i: int| 3 <= i < 6 implies count_kind(tr, #[trigger] kinds[i]) == 0 by {
        lemma_count_zero_when(tr, pt, kinds[i]);
    }
    assert(kinds[0] == ChangeType::TrackRemoved && kinds[1] == ChangeType::TrackAdded && kinds[2]
        == ChangeType::TrackModified && kinds[3] == ChangeType::AssetRemoved && kinds[4]
        == ChangeType::AssetAdded && kinds[5] == ChangeType::AssetChanged);
}

// ---------------------------------------------------------------------------
// Modified devices.
// ---------------------------------------------------------------------------

/// Comparing one entity with one counterpart of the same identity: they are
/// matched, and the change list is what a matched pair reports.
proof fn lemma_single_pair<T: Reported>(x: T, y: T, bo: Seq<char>, no: Seq<char>)
    requires
        y.same_by(&x, MatchKey::Identity),
    ensures
        list_changes(seq![x], seq![y], bo, no) == if x.differs(&y) {
            x.on_modified(&y, no)
        } else {
            Seq::<ChangeView>::empty()
        },
{
    let b = seq![x];
    let n = seq![y];
    let find = finder(b, n);
    let per = per_of(b, n, bo, no);
    let u0 = Seq::new(1, |j: int| false);
    assert(greedy_used(1, find, 0) == u0);
    let p = key_pred(n, x, MatchKey::Identity);
    assert(p(0));
    assert(first_free(u0, p, 0) == Some(0int));
    assert(find(0, u0) == Some(0int));
    let u1 = greedy_used(1, find, 1);
    assert(u1 == u0.update(0, true));
    assert(matched_part(1, find, per, 0) == Seq::<ChangeView>::empty());
    assert(matched_part(1, find, per, 1) =~= per(0, Some(0int)));
    assert(added_part(u1, added_of(n, no), 0) == Seq::<ChangeView>::empty());
    assert(added_part(u1, added_of(n, no), 1) =~= Seq::<ChangeView>::empty());
    assert(list_changes(b, n, bo, no) =~= per(0, Some(0int)));
}

/// The change reported for a device whose state changed.
pub open spec fn device_state_changed(e: DeviceIndex, track: Seq<char>) -> ChangeView {
    ChangeView {
        change_type: ChangeType::DeviceStateChanged,
        entity_id: e.id@,
        entity_name: e.name@,
        description: "Device '"@ + e.name@ + "' on track '"@ + track + "' changed"@,
    }
}

/// A device compared with its counterpart (the same id) on the newer track:
/// when their fingerprints differ, whatever else they share (type, name), the
/// change list reports `DeviceStateChanged` for it, naming the device and the
/// newer track; when their fingerprints agree, it reports nothing.
pub proof fn lemma_device_state_change_reported(
    d: DeviceIndex,
    e: DeviceIndex,
    base_track: Seq<char>,
    next_track: Seq<char>,
)
    requires
        d.id@ == e.id@,
    ensures
        d.fingerprint@ != e.fingerprint@ ==> list_changes(seq![d], seq![e], base_track, next_track)
            == seq![device_state_changed(e, next_track)],
        d.fingerprint@ == e.fingerprint@ ==> list_changes(seq![d], seq![e], base_track, next_track)
            == Seq::<ChangeView>::empty(),
{
    lemma_single_pair(d, e, base_track, next_track);
}

/// A track modified only in one device's state: the change list of the two
/// indexes (same tempo and audio files, one track each with the same id and
/// different fingerprints, no clips, one device each with the same id and
/// different fingerprints) reports the track as modified, then the device's
/// state change.
pub proof fn lemma_modified_track_reports_device_state(
    b: SemanticIndex,
    n: SemanticIndex,
    bt: TrackIndex,
    nt: TrackIndex,
    d: DeviceIndex,
    e: DeviceIndex,
)
    requires
        opt_number_eq(b.tempo, n.tempo),
        b.assets@ == n.assets@,
        b.tracks@ == seq![bt],
        n.tracks@ == seq![nt],
        bt.id@ == nt.id@,
        bt.fingerprint@ != nt.fingerprint@,
        bt.clips@.len() == 0,
        nt.clips@.len() == 0,
        bt.devices@ == seq![d],
        nt.devices@ == seq![e],
        d.id@ == e.id@,
        d.fingerprint@ != e.fingerprint@,
    ensures
        index_changes(b, n) == seq![
            change_of(ChangeType::TrackModified, nt.id@, nt.name@, "Track '"@ + nt.name@ + "' was modified"@),
            device_state_changed(e, nt.name@),
        ],
{
    assert(track_changes(b.tracks@, n.tracks@) == track_modified_changes(bt, nt)) by {
        let find = finder(seq![bt], seq![nt]);
        let per = track_per(seq![bt], seq![nt]);
        let u0 = Seq::new(1, |j: int| false);
        assert(greedy_used(1, find, 0) == u0);
        assert(key_pred(seq![nt], bt, MatchKey::Identity)(0));
        assert(first_free(u0, key_pred(seq![nt], bt, MatchKey::Identity), 0) == Some(0int));
        assert(find(0, u0) == Some(0int));
        assert(matched_part(1, find, per, 0) == Seq::<ChangeView>::empty());
        assert(matched_part(1, find, per, 1) =~= per(0, Some(0int)));
        let u1 = greedy_used(1, find, 1);
        assert(u1 == u0.update(0, true));
        assert(added_part(u1, track_add(seq![nt]), 0) == Seq::<ChangeView>::empty());
        assert(added_part(u1, track_add(seq![nt]), 1) =~= Seq::<ChangeView>::empty());
        assert(track_changes(seq![bt], seq![nt]) =~= per(0, Some(0int)));
    }
    lemma_device_state_change_reported(d, e, bt.name@, nt.name@);
    lemma_list_with_itself(b.assets@, Seq::empty());
    let nc: Seq<ClipIndex> = nt.clips@;
    let bc: Seq<ClipIndex> = bt.clips@;
    assert(greedy_used(nc.len(), finder(bc, nc), 0) =~= Seq::new(0, |j: int| false));
    assert(list_changes(bc, nc, bt.name@, nt.name@) =~= Seq::<ChangeView>::empty());
    assert(index_changes(b, n) =~= seq![
        change_of(ChangeType::TrackModified, nt.id@, nt.name@, "Track '"@ + nt.name@ + "' was modified"@),
        device_state_changed(e, nt.name@),
    ]);
}

/// A clip compared with its counterpart (the same id) on the newer track:
/// when their fingerprints differ, the change list reports `ClipModified` for
/// the newer clip, by its name (or "Unnamed Clip"), naming the newer track;
/// when their fingerprints agree, it reports nothing.
pub proof fn lemma_clip_change_reported(
    c: ClipIndex,
    e: ClipIndex,
    base_track: Seq<char>,
    next_track: Seq<char>,
)
    requires
        c.id@ == e.id@,
    ensures
        c.fingerprint@ != e.fingerprint@ ==> list_changes(seq![c], seq![e], base_track, next_track)
            == seq![
            ChangeView {
                change_type: ChangeType::ClipModified,
                entity_id: e.id@,
                entity_name: match e.name {
                    Some(n) => n@,
                    None => "Unnamed Clip"@,
                },
                description: "Clip on track '"@ + next_track + "' was modified"@,
            },
        ],
        c.fingerprint@ == e.fingerprint@ ==> list_changes(seq![c], seq![e], base_track, next_track)
            == Seq::<ChangeView>::empty(),
{
    lemma_single_pair(c, e, base_track, next_track);
}

/// An audio file compared with its counterpart (the same path): when their
/// content hashes differ, the change list reports `AssetChanged` for it;
/// when they agree, nothing.
pub proof fn lemma_asset_change_reported(a: AssetIndex, b: AssetIndex, bo: Seq<char>, no: Seq<char>)
    requires
        a.path@ == b.path@,
    ensures
        a.hash@ != b.hash@ ==> list_changes(seq![a], seq![b], bo, no) == seq![
            ChangeView {
                change_type: ChangeType::AssetChanged,
                entity_id: b.path@,
                entity_name: b.path@,
                description: "Asset '"@ + b.path@ + "' content changed"@,
            },
        ],
        a.hash@ == b.hash@ ==> list_changes(seq![a], seq![b], bo, no) == Seq::<ChangeView>::empty(),
{
    lemma_single_pair(a, b, bo, no);
}

} // verus!
