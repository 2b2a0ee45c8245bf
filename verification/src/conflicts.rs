//! Three-way conflict detection between a common base and two sides.
//!
//! Tracks are keyed by id (by name where the id is empty); where a key occurs
//! twice in one index the later track stands for it. A key is in conflict when
//! both sides changed it with respect to the base, and not in the same way.
//!
//! The keys are collected in a `Vec`, once each, in order of first appearance
//! (base, local, remote), and a track is found by a scan that keeps the last
//! match, rather than in a `HashSet` and a `HashMap`: vstd proves nothing of
//! hash maps and sets keyed by `String`, and the order of a `HashSet` changes
//! from one process to the next, where the order here is fixed.

use vstd::prelude::*;
use crate::model::{Conflict, ConflictView, SemanticIndex, TrackIndex};
use crate::text::concat3;

verus! {

/// The key of a track: its id, or its name where the id is empty.
pub open spec fn track_key(t: TrackIndex) -> Seq<char> {
    if t.id@.len() == 0 {
        t.name@
    } else {
        t.id@
    }
}

/// The last track among the first `n` of `s` that has key `k`.
pub open spec fn last_with_key(s: Seq<TrackIndex>, k: Seq<char>, n: int) -> Option<TrackIndex>
    decreases n,
{
    if n <= 0 {
        None
    } else if track_key(s[n - 1]) == k {
        Some(s[n - 1])
    } else {
        last_with_key(s, k, n - 1)
    }
}

/// The track that stands for key `k` in a list of tracks.
pub open spec fn track_for(s: Seq<TrackIndex>, k: Seq<char>) -> Option<TrackIndex> {
    last_with_key(s, k, s.len() as int)
}

/// The keys of a list of tracks, in order.
pub open spec fn keys_of(s: Seq<TrackIndex>) -> Seq<Seq<char>> {
    s.map_values(|t: TrackIndex| track_key(t))
}

/// The first `n` elements of `s`, each kept at its first occurrence only.
pub open spec fn distinct_prefix(s: Seq<Seq<char>>, n: int) -> Seq<Seq<char>>
    decreases n,
{
    if n <= 0 {
        Seq::empty()
    } else {
        let d = distinct_prefix(s, n - 1);
        if d.contains(s[n - 1]) {
            d
        } else {
            d.push(s[n - 1])
        }
    }
}

/// Every key of the three indexes, once, in order of first appearance
/// (base, then local, then remote).
pub open spec fn all_keys(base: SemanticIndex, local: SemanticIndex, remote: SemanticIndex) -> Seq<
    Seq<char>,
> {
    let s = keys_of(base.tracks@) + keys_of(local.tracks@) + keys_of(remote.tracks@);
    distinct_prefix(s, s.len() as int)
}

/// A side changed a track with respect to the base: added, deleted, or
/// fingerprint changed.
pub open spec fn changed(b: Option<TrackIndex>, o: Option<TrackIndex>) -> bool {
    match (b, o) {
        (Some(x), Some(y)) => x.fingerprint@ != y.fingerprint@,
        (Some(_), None) => true,
        (None, Some(_)) => true,
        (None, None) => false,
    }
}

/// Both sides changed the track, and differently: one deleted it and the
/// other did not, or both hold it with different fingerprints.
pub open spec fn in_conflict(b: Option<TrackIndex>, l: Option<TrackIndex>, r: Option<TrackIndex>) -> bool {
    &&& changed(b, l)
    &&& changed(b, r)
    &&& (l is None) != (r is None) || (l is Some && r is Some && l.unwrap().fingerprint@
        != r.unwrap().fingerprint@)
}

/// How one side's version of a track is shown.
pub open spec fn side_label(t: Option<TrackIndex>) -> Seq<char> {
    match t {
        Some(x) => x.name@ + " ("@ + x.fingerprint@ + ")"@,
        None => "<deleted>"@,
    }
}

/// Whether key `k` is in conflict.
pub open spec fn key_in_conflict(
    base: SemanticIndex,
    local: SemanticIndex,
    remote: SemanticIndex,
    k: Seq<char>,
) -> bool {
    in_conflict(track_for(base.tracks@, k), track_for(local.tracks@, k), track_for(remote.tracks@, k))
}

/// The conflict reported for key `k`.
pub open spec fn conflict_for(
    local: SemanticIndex,
    remote: SemanticIndex,
    k: Seq<char>,
) -> ConflictView {
    ConflictView {
        entity_id: k,
        description: "Track changed differently in local and remote"@,
        local_value: side_label(track_for(local.tracks@, k)),
        remote_value: side_label(track_for(remote.tracks@, k)),
    }
}

/// The conflicts among the first `n` keys of `keys`.
pub open spec fn conflicts_upto(
    base: SemanticIndex,
    local: SemanticIndex,
    remote: SemanticIndex,
    keys: Seq<Seq<char>>,
    n: int,
) -> Seq<ConflictView>
    decreases n,
{
    if n <= 0 {
        Seq::empty()
    } else {
        conflicts_upto(base, local, remote, keys, n - 1) + if key_in_conflict(
            base,
            local,
            remote,
            keys[n - 1],
        ) {
            seq![conflict_for(local, remote, keys[n - 1])]
        } else {
            Seq::empty()
        }
    }
}

/// All conflicts, one per conflicting key, in the order of `all_keys`.
pub open spec fn conflicts(base: SemanticIndex, local: SemanticIndex, remote: SemanticIndex) -> Seq<
    ConflictView,
> {
    let keys = all_keys(base, local, remote);
    conflicts_upto(base, local, remote, keys, keys.len() as int)
}

pub open spec fn conflict_views(s: Seq<Conflict>) -> Seq<ConflictView> {
    s.map_values(|c: Conflict| c@)
}

fn key_of(t: &TrackIndex) -> (k: String)
    ensures
        k@ == track_key(*t),
{
    if t.id.as_str().is_empty() {
        t.name.clone()
    } else {
        t.id.clone()
    }
}

/// The index of the track that stands for key `k`.
fn find_by_key(tracks: &Vec<TrackIndex>, k: &String) -> (r: Option<usize>)
    ensures
        match r {
            Some(j) => j < tracks.len() && track_for(tracks@, k@) == Some(tracks@[j as int]),
            None => track_for(tracks@, k@) is None,
        },
{
    let mut found: Option<usize> = None;
    let mut j: usize = 0;
    while j < tracks.len()
        invariant
            j <= tracks.len(),
            match found {
                Some(f) => f < j && last_with_key(tracks@, k@, j as int) == Some(tracks@[f as int]),
                None => last_with_key(tracks@, k@, j as int) is None,
            },
        decreases tracks.len() - j,
    {
        let kj = key_of(&tracks[j]);
        if kj == *k {
            found = Some(j);
        }
        j = j + 1;
    }
    found
}

fn push_key(keys: &mut Vec<String>, k: String)
    ensures
        final(keys)@.map_values(|s: String| s@) == if old(keys)@.map_values(|s: String| s@).contains(
            k@,
        ) {
            old(keys)@.map_values(|s: String| s@)
        } else {
            old(keys)@.map_values(|s: String| s@).push(k@)
        },
{
    let ghost views = keys@.map_values(|s: String| s@);
    let mut i: usize = 0;
    while i < keys.len()
        invariant
            i <= keys.len(),
            views == keys@.map_values(|s: String| s@),
            forall|m: int| 0 <= m < i ==> views[m] != k@,
        decreases keys.len() - i,
    {
        if keys[i] == k {
            assert(views.contains(k@)) by {
                assert(views[i as int] == k@);
            }
            return;
        }
        i = i + 1;
    }
    assert(!views.contains(k@));
    keys.push(k);
    assert(keys@.map_values(|s: String| s@) =~= views.push(k@));
}

fn collect_keys(tracks: &Vec<TrackIndex>, keys: &mut Vec<String>, Ghost(prefix): Ghost<Seq<Seq<char>>>)
    requires
        old(keys)@.map_values(|s: String| s@) == distinct_prefix(prefix, prefix.len() as int),
    ensures
        final(keys)@.map_values(|s: String| s@) == distinct_prefix(
            prefix + keys_of(tracks@),
            prefix.len() + tracks.len(),
        ),
{
    let ghost all = prefix + keys_of(tracks@);
    proof {
        lemma_distinct_prefix_extend(prefix, keys_of(tracks@), prefix.len() as int);
    }
    let mut j: usize = 0;
    while j < tracks.len()
        invariant
            j <= tracks.len(),
            all == prefix + keys_of(tracks@),
            keys@.map_values(|s: String| s@) == distinct_prefix(all, prefix.len() + j),
        decreases tracks.len() - j,
    {
        let k = key_of(&tracks[j]);
        assert(all[prefix.len() + j] == k@);
        push_key(keys, k);
        j = j + 1;
    }
}

/// The distinct prefix of `a + b` up to `n <= a.len()` is that of `a`.
proof fn lemma_distinct_prefix_extend(a: Seq<Seq<char>>, b: Seq<Seq<char>>, n: int)
    requires
        0 <= n <= a.len(),
    ensures
        distinct_prefix(a + b, n) == distinct_prefix(a, n),
    decreases n,
{
    if n > 0 {
        lemma_distinct_prefix_extend(a, b, n - 1);
        assert((a + b)[n - 1] == a[n - 1]);
    }
}

fn side_label_of(t: Option<&TrackIndex>) -> (r: String)
    ensures
        r@ == side_label(match t {
            Some(x) => Some(*x),
            None => None,
        }),
{
    match t {
        Some(x) => {
            let mut s = concat3(x.name.as_str(), " (", x.fingerprint.as_str());
            s.append(")");
            s
        },
        None => String::from_str("<deleted>"),
    }
}

fn changed_track(b: Option<&TrackIndex>, o: Option<&TrackIndex>) -> (r: bool)
    ensures
        r == changed(
            match b {
                Some(x) => Some(*x),
                None => None,
            },
            match o {
                Some(x) => Some(*x),
                None => None,
            },
        ),
{
    match (b, o) {
        (Some(x), Some(y)) => x.fingerprint != y.fingerprint,
        (Some(_), None) => true,
        (None, Some(_)) => true,
        (None, None) => false,
    }
}

/// The keys changed on both sides, and differently.
pub fn detect_conflicts(base: &SemanticIndex, local: &SemanticIndex, remote: &SemanticIndex) -> (r:
    Vec<Conflict>)
    ensures
        conflict_views(r@) == conflicts(*base, *local, *remote),
{
    let mut keys: Vec<String> = Vec::new();
    assert(keys@.map_values(|s: String| s@) =~= distinct_prefix(Seq::empty(), 0));
    collect_keys(&base.tracks, &mut keys, Ghost(Seq::empty()));
    let ghost p1 = Seq::<Seq<char>>::empty() + keys_of(base.tracks@);
    collect_keys(&local.tracks, &mut keys, Ghost(p1));
    let ghost p2 = p1 + keys_of(local.tracks@);
    collect_keys(&remote.tracks, &mut keys, Ghost(p2));
    let ghost key_views = keys@.map_values(|s: String| s@);
    assert(p2 + keys_of(remote.tracks@) =~= keys_of(base.tracks@) + keys_of(local.tracks@) + keys_of(
        remote.tracks@,
    ));
    assert(key_views == all_keys(*base, *local, *remote));
    let mut out: Vec<Conflict> = Vec::new();
    let mut i: usize = 0;
    while i < keys.len()
        invariant
            i <= keys.len(),
            key_views == keys@.map_values(|s: String| s@),
            conflict_views(out@) == conflicts_upto(*base, *local, *remote, key_views, i as int),
        decreases keys.len() - i,
    {
        let k = &keys[i];
        assert(key_views[i as int] == k@);
        let bi = find_by_key(&base.tracks, k);
        let li = find_by_key(&local.tracks, k);
        let ri = find_by_key(&remote.tracks, k);
        let b = match bi {
            Some(j) => Some(&base.tracks[j]),
            None => None,
        };
        let l = match li {
            Some(j) => Some(&local.tracks[j]),
            None => None,
        };
        let r = match ri {
            Some(j) => Some(&remote.tracks[j]),
            None => None,
        };
        let ghost before = conflict_views(out@);
        if changed_track(b, l) && changed_track(b, r) {
            let local_deleted = l.is_none();
            let remote_deleted = r.is_none();
            let is_conflict = (local_deleted && !remote_deleted) || (!local_deleted && remote_deleted)
                || (match (l, r) {
                (Some(x), Some(y)) => x.fingerprint != y.fingerprint,
                _ => false,
            });
            if is_conflict {
                let c = Conflict {
                    entity_id: k.clone(),
                    description: String::from_str("Track changed differently in local and remote"),
                    local_value: side_label_of(l),
                    remote_value: side_label_of(r),
                };
                out.push(c);
                assert(conflict_views(out@) =~= before.push(c@));
            }
        }
        i = i + 1;
    }
    out
}

// ---------------------------------------------------------------------------
// Laws.
// ---------------------------------------------------------------------------

proof fn lemma_no_conflict_upto(
    base: SemanticIndex,
    local: SemanticIndex,
    remote: SemanticIndex,
    keys: Seq<Seq<char>>,
    n: int,
)
    requires
        forall|k: Seq<char>| !key_in_conflict(base, local, remote, k),
    ensures
        conflicts_upto(base, local, remote, keys, n) == Seq::<ConflictView>::empty(),
    decreases n,
{
    if n > 0 {
        lemma_no_conflict_upto(base, local, remote, keys, n - 1);
        assert(conflicts_upto(base, local, remote, keys, n) =~= Seq::<ConflictView>::empty());
    }
}

/// When one side left every track as in the base, nothing is in conflict.
pub proof fn lemma_unchanged_side_has_no_conflicts(
    base: SemanticIndex,
    local: SemanticIndex,
    remote: SemanticIndex,
)
    requires
        local.tracks@ == base.tracks@,
    ensures
        conflicts(base, local, remote) == Seq::<ConflictView>::empty(),
{
    lemma_no_conflict_upto(
        base,
        local,
        remote,
        all_keys(base, local, remote),
        all_keys(base, local, remote).len() as int,
    );
}

/// When both sides hold the same tracks, they made the same changes and
/// nothing is in conflict.
pub proof fn lemma_same_sides_have_no_conflicts(
    base: SemanticIndex,
    local: SemanticIndex,
    remote: SemanticIndex,
)
    requires
        local.tracks@ == remote.tracks@,
    ensures
        conflicts(base, local, remote) == Seq::<ConflictView>::empty(),
{
    lemma_no_conflict_upto(
        base,
        local,
        remote,
        all_keys(base, local, remote),
        all_keys(base, local, remote).len() as int,
    );
}

proof fn lemma_distinct_prefix_distinct(s: Seq<Seq<char>>, n: int)
    requires
        0 <= n <= s.len(),
    ensures
        forall|i: int, j: int|
            0 <= i < j < distinct_prefix(s, n).len() ==> #[trigger] distinct_prefix(s, n)[i]
                != #[trigger] distinct_prefix(s, n)[j],
    decreases n,
{
    if n > 0 {
        lemma_distinct_prefix_distinct(s, n - 1);
        let d = distinct_prefix(s, n - 1);
        if !d.contains(s[n - 1]) {
            let e = d.push(s[n - 1]);
            assert forall|i: int, j: int| 0 <= i < j < e.len() implies #[trigger] e[i] != #[trigger] e[j] by {
                if j == d.len() {
                    if e[i] == e[j] {
                        assert(d[i] == s[n - 1]);
                        assert(d.contains(s[n - 1]));
                    }
                } else {
                    assert(e[i] == d[i] && e[j] == d[j]);
                }
            }
        }
    }
}

proof fn lemma_conflict_ids_upto(
    base: SemanticIndex,
    local: SemanticIndex,
    remote: SemanticIndex,
    keys: Seq<Seq<char>>,
    n: int,
)
    requires
        0 <= n <= keys.len(),
        forall|i: int, j: int| 0 <= i < j < keys.len() ==> #[trigger] keys[i] != #[trigger] keys[j],
    ensures
        forall|i: int|
            0 <= i < conflicts_upto(base, local, remote, keys, n).len() ==> exists|m: int|
                0 <= m < n && #[trigger] conflicts_upto(base, local, remote, keys, n)[i].entity_id
                    == keys[m],
        forall|i: int, j: int|
            0 <= i < j < conflicts_upto(base, local, remote, keys, n).len() ==> #[trigger] conflicts_upto(
                base,
                local,
                remote,
                keys,
                n,
            )[i].entity_id != #[trigger] conflicts_upto(base, local, remote, keys, n)[j].entity_id,
    decreases n,
{
    if n > 0 {
        lemma_conflict_ids_upto(base, local, remote, keys, n - 1);
        let prev = conflicts_upto(base, local, remote, keys, n - 1);
        let cur = conflicts_upto(base, local, remote, keys, n);
        assert forall|i: int| 0 <= i < cur.len() implies exists|m: int|
            0 <= m < n && #[trigger] cur[i].entity_id == keys[m] by {
            if i < prev.len() {
                assert(cur[i] == prev[i]);
                let m = choose|m: int| 0 <= m < n - 1 && #[trigger] prev[i].entity_id == keys[m];
                assert(cur[i].entity_id == keys[m]);
            } else {
                assert(cur[i].entity_id == keys[n - 1]);
            }
        }
        assert forall|i: int, j: int| 0 <= i < j < cur.len() implies #[trigger] cur[i].entity_id
            != #[trigger] cur[j].entity_id by {
            if j < prev.len() {
                assert(cur[i] == prev[i] && cur[j] == prev[j]);
            } else {
                assert(cur[i] == prev[i]);
                assert(cur[j].entity_id == keys[n - 1]);
                let m = choose|m: int| 0 <= m < n - 1 && #[trigger] prev[i].entity_id == keys[m];
                assert(keys[m] != keys[n - 1]);
            }
        }
    }
}

/// No track is reported in conflict twice: the conflicts name distinct keys.
pub proof fn lemma_conflicts_name_distinct_tracks(
    base: SemanticIndex,
    local: SemanticIndex,
    remote: SemanticIndex,
)
    ensures
        forall|i: int, j: int|
            0 <= i < j < conflicts(base, local, remote).len() ==> #[trigger] conflicts(
                base,
                local,
                remote,
            )[i].entity_id != #[trigger] conflicts(base, local, remote)[j].entity_id,
{
    let s = keys_of(base.tracks@) + keys_of(local.tracks@) + keys_of(remote.tracks@);
    let keys = all_keys(base, local, remote);
    lemma_distinct_prefix_distinct(s, s.len() as int);
    lemma_conflict_ids_upto(base, local, remote, keys, keys.len() as int);
}

proof fn lemma_conflicts_upto_members(
    base: SemanticIndex,
    local: SemanticIndex,
    remote: SemanticIndex,
    keys: Seq<Seq<char>>,
    n: int,
)
    requires
        0 <= n <= keys.len(),
    ensures
        forall|c: ConflictView|
            #![trigger conflicts_upto(base, local, remote, keys, n).contains(c)]
            conflicts_upto(base, local, remote, keys, n).contains(c) <==> exists|i: int|
                0 <= i < n && #[trigger] key_in_conflict(base, local, remote, keys[i]) && c
                    == conflict_for(local, remote, keys[i]),
    decreases n,
{
    if n > 0 {
        lemma_conflicts_upto_members(base, local, remote, keys, n - 1);
        let prev = conflicts_upto(base, local, remote, keys, n - 1);
        let cur = conflicts_upto(base, local, remote, keys, n);
        assert forall|c: ConflictView| cur.contains(c) <==> exists|i: int|
            0 <= i < n && #[trigger] key_in_conflict(base, local, remote, keys[i]) && c
                == conflict_for(local, remote, keys[i]) by {
            if cur.contains(c) {
                let m = choose|m: int| 0 <= m < cur.len() && cur[m] == c;
                if m < prev.len() {
                    assert(prev[m] == c);
                    assert(prev.contains(c));
                } else {
                    assert(key_in_conflict(base, local, remote, keys[n - 1]));
                }
            }
            if exists|i: int|
                0 <= i < n && #[trigger] key_in_conflict(base, local, remote, keys[i]) && c
                    == conflict_for(local, remote, keys[i]) {
                let i = choose|i: int|
                    0 <= i < n && #[trigger] key_in_conflict(base, local, remote, keys[i]) && c
                        == conflict_for(local, remote, keys[i]);
                if i < n - 1 {
                    assert(prev.contains(c));
                    let m = choose|m: int| 0 <= m < prev.len() && prev[m] == c;
                    assert(cur[m] == c);
                } else {
                    assert(cur[cur.len() - 1] == c);
                }
            }
        }
    }
}

proof fn lemma_distinct_prefix_members(s: Seq<Seq<char>>, n: int)
    requires
        0 <= n <= s.len(),
    ensures
        forall|k: Seq<char>|
            #![trigger distinct_prefix(s, n).contains(k)]
            distinct_prefix(s, n).contains(k) <==> exists|i: int| 0 <= i < n && s[i] == k,
    decreases n,
{
    if n > 0 {
        lemma_distinct_prefix_members(s, n - 1);
        let d = distinct_prefix(s, n - 1);
        assert forall|k: Seq<char>|
            distinct_prefix(s, n).contains(k) <==> exists|i: int| 0 <= i < n && s[i] == k by {
            if !d.contains(s[n - 1]) {
                let e = d.push(s[n - 1]);
                if e.contains(k) {
                    let m = choose|m: int| 0 <= m < e.len() && e[m] == k;
                    if m < d.len() {
                        assert(d[m] == k);
                        assert(d.contains(k));
                    }
                }
                if d.contains(k) {
                    let m = choose|m: int| 0 <= m < d.len() && d[m] == k;
                    assert(e[m] == k);
                }
                assert(e[d.len() as int] == s[n - 1]);
            }
        }
    }
}

proof fn lemma_all_keys_swap(base: SemanticIndex, local: SemanticIndex, remote: SemanticIndex, k: Seq<char>)
    requires
        all_keys(base, local, remote).contains(k),
    ensures
        all_keys(base, remote, local).contains(k),
{
    let s1 = keys_of(base.tracks@) + keys_of(local.tracks@) + keys_of(remote.tracks@);
    let s2 = keys_of(base.tracks@) + keys_of(remote.tracks@) + keys_of(local.tracks@);
    lemma_distinct_prefix_members(s1, s1.len() as int);
    lemma_distinct_prefix_members(s2, s2.len() as int);
    let i = choose|i: int| 0 <= i < s1.len() && s1[i] == k;
    let nb = keys_of(base.tracks@).len() as int;
    let nl = keys_of(local.tracks@).len() as int;
    let nr = keys_of(remote.tracks@).len() as int;
    if i < nb {
        assert(s2[i] == k);
    } else if i < nb + nl {
        assert(s2[i + nr] == k);
    } else {
        assert(s2[i - nl] == k);
    }
}

/// Conflict detection does not depend on which side is called local: every
/// conflict found between `local` and `remote` is found between `remote` and
/// `local`, for the same track, with the two sides' values exchanged.
pub proof fn lemma_conflicts_symmetric(
    base: SemanticIndex,
    local: SemanticIndex,
    remote: SemanticIndex,
    c: ConflictView,
)
    requires
        conflicts(base, local, remote).contains(c),
    ensures
        conflicts(base, remote, local).contains(
            ConflictView {
                entity_id: c.entity_id,
                description: c.description,
                local_value: c.remote_value,
                remote_value: c.local_value,
            },
        ),
{
    let keys1 = all_keys(base, local, remote);
    let keys2 = all_keys(base, remote, local);
    lemma_conflicts_upto_members(base, local, remote, keys1, keys1.len() as int);
    lemma_conflicts_upto_members(base, remote, local, keys2, keys2.len() as int);
    let i = choose|i: int|
        0 <= i < keys1.len() && #[trigger] key_in_conflict(base, local, remote, keys1[i]) && c
            == conflict_for(local, remote, keys1[i]);
    let k = keys1[i];
    assert(keys1.contains(k));
    lemma_all_keys_swap(base, local, remote, k);
    let j = choose|j: int| 0 <= j < keys2.len() && keys2[j] == k;
    assert(key_in_conflict(base, remote, local, keys2[j]));
    let swapped = ConflictView {
        entity_id: c.entity_id,
        description: c.description,
        local_value: c.remote_value,
        remote_value: c.local_value,
    };
    assert(swapped == conflict_for(remote, local, keys2[j]));
}

proof fn lemma_last_with_key_found(s: Seq<TrackIndex>, k: Seq<char>, n: int)
    requires
        0 <= n <= s.len(),
        last_with_key(s, k, n) is Some,
    ensures
        exists|i: int| 0 <= i < n && track_key(s[i]) == k,
    decreases n,
{
    if n > 0 && track_key(s[n - 1]) != k {
        lemma_last_with_key_found(s, k, n - 1);
        let i = choose|i: int| 0 <= i < n - 1 && track_key(s[i]) == k;
        assert(0 <= i < n && track_key(s[i]) == k);
    }
}

/// A key held by any of the three indexes is among the keys examined.
proof fn lemma_key_listed(base: SemanticIndex, local: SemanticIndex, remote: SemanticIndex, k: Seq<char>)
    requires
        track_for(base.tracks@, k) is Some || track_for(local.tracks@, k) is Some || track_for(
            remote.tracks@,
            k,
        ) is Some,
    ensures
        all_keys(base, local, remote).contains(k),
{
    let kb = keys_of(base.tracks@);
    let kl = keys_of(local.tracks@);
    let kr = keys_of(remote.tracks@);
    let s = kb + kl + kr;
    if track_for(base.tracks@, k) is Some {
        lemma_last_with_key_found(base.tracks@, k, base.tracks@.len() as int);
        let i = choose|i: int| 0 <= i < base.tracks@.len() && track_key(base.tracks@[i]) == k;
        assert(kb[i] == k);
        assert(s[i] == k);
    } else if track_for(local.tracks@, k) is Some {
        lemma_last_with_key_found(local.tracks@, k, local.tracks@.len() as int);
        let i = choose|i: int| 0 <= i < local.tracks@.len() && track_key(local.tracks@[i]) == k;
        assert(kl[i] == k);
        assert(s[kb.len() + i] == k);
    } else {
        lemma_last_with_key_found(remote.tracks@, k, remote.tracks@.len() as int);
        let i = choose|i: int| 0 <= i < remote.tracks@.len() && track_key(remote.tracks@[i]) == k;
        assert(kr[i] == k);
        assert(s[kb.len() + kl.len() + i] == k);
    }
    lemma_distinct_prefix_members(s, s.len() as int);
}

/// Deleting a track is a change: when one side (local) changed the
/// fingerprint of the base's track under key `k` and the other side (remote)
/// deleted it, `k` is reported in conflict, the remote side shown as
/// `<deleted>`.
pub proof fn lemma_modified_against_deleted(
    base: SemanticIndex,
    local: SemanticIndex,
    remote: SemanticIndex,
    k: Seq<char>,
    b: TrackIndex,
    x: TrackIndex,
)
    requires
        track_for(base.tracks@, k) == Some(b),
        track_for(local.tracks@, k) == Some(x),
        track_for(remote.tracks@, k) is None,
        x.fingerprint@ != b.fingerprint@,
    ensures
        conflicts(base, local, remote).contains(
            ConflictView {
                entity_id: k,
                description: "Track changed differently in local and remote"@,
                local_value: x.name@ + " ("@ + x.fingerprint@ + ")"@,
                remote_value: "<deleted>"@,
            },
        ),
{
    lemma_key_listed(base, local, remote, k);
    let keys = all_keys(base, local, remote);
    let m = choose|m: int| 0 <= m < keys.len() && keys[m] == k;
    assert(key_in_conflict(base, local, remote, keys[m]));
    lemma_conflicts_upto_members(base, local, remote, keys, keys.len() as int);
    let c = ConflictView {
        entity_id: k,
        description: "Track changed differently in local and remote"@,
        local_value: x.name@ + " ("@ + x.fingerprint@ + ")"@,
        remote_value: "<deleted>"@,
    };
    assert(c == conflict_for(local, remote, keys[m]));
}

/// When both sides changed the fingerprint of the base's track under key
/// `k`, each to a different fingerprint, `k` is reported in conflict with
/// each side's name and fingerprint.
pub proof fn lemma_modified_differently_on_both_sides(
    base: SemanticIndex,
    local: SemanticIndex,
    remote: SemanticIndex,
    k: Seq<char>,
    b: TrackIndex,
    x: TrackIndex,
    y: TrackIndex,
)
    requires
        track_for(base.tracks@, k) == Some(b),
        track_for(local.tracks@, k) == Some(x),
        track_for(remote.tracks@, k) == Some(y),
        x.fingerprint@ != b.fingerprint@,
        y.fingerprint@ != b.fingerprint@,
        x.fingerprint@ != y.fingerprint@,
    ensures
        conflicts(base, local, remote).contains(
            ConflictView {
                entity_id: k,
                description: "Track changed differently in local and remote"@,
                local_value: x.name@ + " ("@ + x.fingerprint@ + ")"@,
                remote_value: y.name@ + " ("@ + y.fingerprint@ + ")"@,
            },
        ),
{
    lemma_key_listed(base, local, remote, k);
    let keys = all_keys(base, local, remote);
    let m = choose|m: int| 0 <= m < keys.len() && keys[m] == k;
    assert(key_in_conflict(base, local, remote, keys[m]));
    lemma_conflicts_upto_members(base, local, remote, keys, keys.len() as int);
    let c = ConflictView {
        entity_id: k,
        description: "Track changed differently in local and remote"@,
        local_value: x.name@ + " ("@ + x.fingerprint@ + ")"@,
        remote_value: y.name@ + " ("@ + y.fingerprint@ + ")"@,
    };
    assert(c == conflict_for(local, remote, keys[m]));
}

/// Adding a track is a change: when the base holds no track under key `k`
/// and both sides hold one (`x` locally, `y` remotely) with different
/// fingerprints, `k` is reported in conflict, with each side's name and
/// fingerprint.
pub proof fn lemma_added_on_both_sides_differently(
    base: SemanticIndex,
    local: SemanticIndex,
    remote: SemanticIndex,
    k: Seq<char>,
    x: TrackIndex,
    y: TrackIndex,
)
    requires
        track_for(base.tracks@, k) is None,
        track_for(local.tracks@, k) == Some(x),
        track_for(remote.tracks@, k) == Some(y),
        x.fingerprint@ != y.fingerprint@,
    ensures
        conflicts(base, local, remote).contains(
            ConflictView {
                entity_id: k,
                description: "Track changed differently in local and remote"@,
                local_value: x.name@ + " ("@ + x.fingerprint@ + ")"@,
                remote_value: y.name@ + " ("@ + y.fingerprint@ + ")"@,
            },
        ),
{
    lemma_key_listed(base, local, remote, k);
    let keys = all_keys(base, local, remote);
    assert(keys.contains(k));
    let m = choose|m: int| 0 <= m < keys.len() && keys[m] == k;
    assert(key_in_conflict(base, local, remote, keys[m]));
    lemma_conflicts_upto_members(base, local, remote, keys, keys.len() as int);
    let c = ConflictView {
        entity_id: k,
        description: "Track changed differently in local and remote"@,
        local_value: x.name@ + " ("@ + x.fingerprint@ + ")"@,
        remote_value: y.name@ + " ("@ + y.fingerprint@ + ")"@,
    };
    assert(c == conflict_for(local, remote, keys[m]));
}

} // verus!
