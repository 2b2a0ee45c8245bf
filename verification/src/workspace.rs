//! The workspace of a project: where its versions live, its configuration,
//! and the identifiers of its snapshots.

use vstd::prelude::*;
use crate::text::{concat3, decimal_digits};
use crate::index::{ByteOrdered, blake3_hex, blake3_hex_of, text_less};
use crate::model::{SemanticIndex, opt_view};

verus! {

/// The configuration of a project bound to a workspace.
pub struct ProjectConfig {
    pub project_name: String,
    pub project_path: String,
    pub bwversions_path: String,
    pub remote_url: Option<String>,
    pub current_branch: String,
    pub created_at: String,
    pub updated_at: String,
}

/// What a saved snapshot records about itself.
pub struct SnapshotManifest {
    pub snapshot_id: String,
    pub message: String,
    pub author: String,
    pub timestamp: String,
    pub parent_snapshot_id: Option<String>,
    pub dawproject_hash: String,
    pub semantic_index_hash: String,
}

/// One entry of the history.
pub struct SnapshotSummary {
    pub snapshot_id: String,
    pub message: String,
    pub author: String,
    pub timestamp: String,
    pub change_count: usize,
}

/// The separator conventions of the platform the paths belong to.
#[derive(Clone, Copy)]
pub enum PathStyle {
    /// `/` separates components.
    Unix,
    /// `\` separates components, and `/` is accepted as a separator too.
    Windows,
}

/// `c` separates path components in `style`.
pub open spec fn is_separator(style: PathStyle, c: char) -> bool {
    c == '/' || (style is Windows && c == '\\')
}

/// The separator `style` inserts between components.
pub open spec fn separator(style: PathStyle) -> char {
    match style {
        PathStyle::Unix => '/',
        PathStyle::Windows => '\\',
    }
}

pub open spec fn is_ascii_letter(c: char) -> bool {
    ('a' <= c <= 'z') || ('A' <= c <= 'Z')
}

/// A Windows drive without a path, such as `C:`.
pub open spec fn is_bare_drive(style: PathStyle, base: Seq<char>) -> bool {
    style is Windows && base.len() == 2 && base[1] == ':' && is_ascii_letter(base[0])
}

/// `base` joined with the relative component `part`, as `Path::join` does:
/// the platform's separator is inserted unless `base` is empty, already ends
/// in a separator, or (on Windows) is a bare drive such as `C:`.
pub open spec fn joined(style: PathStyle, base: Seq<char>, part: Seq<char>) -> Seq<char> {
    if base.len() == 0 || is_separator(style, base.last()) || is_bare_drive(style, base) {
        base + part
    } else {
        base.push(separator(style)) + part
    }
}

pub fn join_path(style: PathStyle, base: &str, part: &str) -> (r: String)
    ensures
        r@ == joined(style, base@, part@),
{
    let windows = match style {
        PathStyle::Unix => false,
        PathStyle::Windows => true,
    };
    let n = base.unicode_len();
    let mut no_separator = n == 0;
    if n > 0 {
        let last = base.get_char(n - 1);
        no_separator = last == '/' || (windows && last == '\\');
    }
    if windows && n == 2 {
        let d = base.get_char(0);
        if base.get_char(1) == ':' && (('a' <= d && d <= 'z') || ('A' <= d && d <= 'Z')) {
            no_separator = true;
        }
    }
    let mut s = String::from_str(base);
    if !no_separator {
        let sep = if windows {
            '\\'
        } else {
            '/'
        };
        crate::text::push_char(&mut s, sep);
    }
    s.append(part);
    s
}

/// The directory that holds the workspace of a project.
pub open spec fn bwversions_dir(style: PathStyle, project_path: Seq<char>) -> Seq<char> {
    joined(style, project_path, ".bwversions"@)
}

pub open spec fn snapshots_dir(style: PathStyle, bwversions_path: Seq<char>) -> Seq<char> {
    joined(style, bwversions_path, "snapshots"@)
}

pub open spec fn incoming_exports_dir(style: PathStyle, bwversions_path: Seq<char>) -> Seq<char> {
    joined(style, joined(style, bwversions_path, "exports"@), "incoming"@)
}

/// Where exports from the DAW arrive.
pub fn get_incoming_exports_dir(style: PathStyle, bwversions_path: &str) -> (r: String)
    ensures
        r@ == incoming_exports_dir(style, bwversions_path@),
{
    let exports = join_path(style, bwversions_path, "exports");
    join_path(style, exports.as_str(), "incoming")
}

/// Where snapshots are stored, one directory each.
pub fn get_snapshots_dir(style: PathStyle, bwversions_path: &str) -> (r: String)
    ensures
        r@ == snapshots_dir(style, bwversions_path@),
{
    join_path(style, bwversions_path, "snapshots")
}

/// The directories a new workspace consists of: snapshots, incoming
/// exports, cache and scratch space.
pub fn workspace_dirs(style: PathStyle, bwversions_path: &str) -> (dirs: Vec<String>)
    ensures
        dirs@.map_values(|d: String| d@) == seq![
            snapshots_dir(style, bwversions_path@),
            incoming_exports_dir(style, bwversions_path@),
            joined(style, bwversions_path@, "cache"@),
            joined(style, bwversions_path@, "tmp"@),
        ],
{
    let mut dirs: Vec<String> = Vec::new();
    dirs.push(get_snapshots_dir(style, bwversions_path));
    dirs.push(get_incoming_exports_dir(style, bwversions_path));
    dirs.push(join_path(style, bwversions_path, "cache"));
    dirs.push(join_path(style, bwversions_path, "tmp"));
    assert(dirs@.map_values(|d: String| d@) =~= seq![
        snapshots_dir(style, bwversions_path@),
        incoming_exports_dir(style, bwversions_path@),
        joined(style, bwversions_path@, "cache"@),
        joined(style, bwversions_path@, "tmp"@),
    ]);
    dirs
}

/// The file that holds the configuration of a workspace.
pub fn project_config_file(style: PathStyle, bwversions_path: &str) -> (r: String)
    ensures
        r@ == joined(style, bwversions_path@, "project.json"@),
{
    join_path(style, bwversions_path, "project.json")
}

/// The configuration of a project newly bound at `project_path`: on branch
/// `main`, without remote, created and updated at `now`.
pub fn new_project_config(style: PathStyle, project_path: &str, project_name: &str, now: &str) -> (c:
    ProjectConfig)
    ensures
        c.project_name@ == project_name@,
        c.project_path@ == project_path@,
        c.bwversions_path@ == bwversions_dir(style, project_path@),
        c.remote_url is None,
        c.current_branch@ == "main"@,
        c.created_at@ == now@,
        c.updated_at@ == now@,
{
    ProjectConfig {
        project_name: String::from_str(project_name),
        project_path: String::from_str(project_path),
        bwversions_path: join_path(style, project_path, ".bwversions"),
        remote_url: None,
        current_branch: String::from_str("main"),
        created_at: String::from_str(now),
        updated_at: String::from_str(now),
    }
}

/// The configuration as it is written to disk at time `now`: unchanged but
/// for `updated_at`, which records the save.
pub fn stamped_config(config: &ProjectConfig, now: &str) -> (c: ProjectConfig)
    ensures
        c.project_name@ == config.project_name@,
        c.project_path@ == config.project_path@,
        c.bwversions_path@ == config.bwversions_path@,
        opt_view(c.remote_url) == opt_view(config.remote_url),
        c.current_branch@ == config.current_branch@,
        c.created_at@ == config.created_at@,
        c.updated_at@ == now@,
{
    ProjectConfig {
        project_name: config.project_name.clone(),
        project_path: config.project_path.clone(),
        bwversions_path: config.bwversions_path.clone(),
        remote_url: match &config.remote_url {
            Some(u) => Some(u.clone()),
            None => None,
        },
        current_branch: config.current_branch.clone(),
        created_at: config.created_at.clone(),
        updated_at: String::from_str(now),
    }
}

// ---------------------------------------------------------------------------
// Saving a snapshot.
// ---------------------------------------------------------------------------

/// The record a saved snapshot keeps of itself: its message and author, when
/// it was saved, the snapshot it follows (if any), and the BLAKE3 digests of
/// its project file and of its serialized semantic index.
pub fn snapshot_manifest(
    snapshot_id: String,
    message: String,
    author: String,
    timestamp: String,
    parent: Option<&SemanticIndex>,
    project_bytes: &[u8],
    index_bytes: &[u8],
) -> (m: SnapshotManifest)
    ensures
        m.snapshot_id@ == snapshot_id@,
        m.message@ == message@,
        m.author@ == author@,
        m.timestamp@ == timestamp@,
        opt_view(m.parent_snapshot_id) == match parent {
            Some(p) => Some(p.snapshot_id@),
            None => None,
        },
        m.dawproject_hash@ == blake3_hex_of(project_bytes@),
        m.semantic_index_hash@ == blake3_hex_of(index_bytes@),
{
    SnapshotManifest {
        snapshot_id,
        message,
        author,
        timestamp,
        parent_snapshot_id: match parent {
            Some(p) => Some(p.snapshot_id.clone()),
            None => None,
        },
        dawproject_hash: blake3_hex(project_bytes),
        semantic_index_hash: blake3_hex(index_bytes),
    }
}

/// The message of the commit that records a saved version.
pub fn version_commit_message(message: &str) -> (r: String)
    ensures
        r@ == "Save version: "@ + message@,
{
    let mut s = String::from_str("Save version: ");
    s.append(message);
    s
}

/// Where a file of snapshot `snapshot_id` lies inside the project repository.
pub fn snapshot_path_in_repo(snapshot_id: &str, file: &str) -> (r: String)
    ensures
        r@ == ".bwversions/snapshots/"@ + snapshot_id@ + "/"@ + file@,
{
    let mut s = concat3(".bwversions/snapshots/", snapshot_id, "/");
    s.append(file);
    s
}

// ---------------------------------------------------------------------------
// The time of a save.
// ---------------------------------------------------------------------------

/// The fraction of a second as chrono writes it in RFC 3339: nothing for a
/// whole second, else a dot and 3, 6 or 9 digits, the fewest that hold it.
pub open spec fn fraction_text(nano: int) -> Seq<char> {
    if nano == 0 {
        Seq::empty()
    } else if nano % 1_000_000 == 0 {
        seq!['.'] + zero_padded(decimal_digits((nano / 1_000_000) as nat), 3)
    } else if nano % 1_000 == 0 {
        seq!['.'] + zero_padded(decimal_digits((nano / 1_000) as nat), 6)
    } else {
        seq!['.'] + zero_padded(decimal_digits(nano as nat), 9)
    }
}

/// A UTC date and time as chrono's `to_rfc3339` writes it.
pub open spec fn rfc3339_utc(y: int, mo: int, d: int, h: int, mi: int, s: int, nano: int) -> Seq<
    char,
> {
    year_text(y) + "-"@ + two_digit_text(mo) + "-"@ + two_digit_text(d) + "T"@ + two_digit_text(h)
        + ":"@ + two_digit_text(mi) + ":"@ + two_digit_text(s) + fraction_text(nano) + "+00:00"@
}

/// `t` is some valid UTC date and time written in RFC 3339.
pub open spec fn is_rfc3339_utc(t: Seq<char>) -> bool {
    exists|y: int, mo: int, d: int, h: int, mi: int, s: int, nano: int|
        valid_clock(y, mo, d, h, mi, s) && 0 <= nano < 1_000_000_000 && t == rfc3339_utc(
            y,
            mo,
            d,
            h,
            mi,
            s,
            nano,
        )
}

/// The current UTC time, written by chrono's `to_rfc3339`. Which time it is
/// rests on the clock; the contract states the shape of every outcome.
/// chrono panics when the system clock reads a time before 1970, a condition
/// of the machine that no argument controls.
#[verifier::external_body]
fn utc_now_rfc3339() -> (r: String)
    ensures
        is_rfc3339_utc(r@),
{
    chrono::Utc::now().to_rfc3339()
}

/// The configuration of a project bound at `project_path` now: as
/// `new_project_config` makes it, created and updated at the current time.
pub fn new_project_config_now(style: PathStyle, project_path: &str, project_name: &str) -> (c:
    ProjectConfig)
    ensures
        c.project_name@ == project_name@,
        c.project_path@ == project_path@,
        c.bwversions_path@ == bwversions_dir(style, project_path@),
        c.remote_url is None,
        c.current_branch@ == "main"@,
        c.created_at@ == c.updated_at@,
        is_rfc3339_utc(c.created_at@),
{
    let now = utc_now_rfc3339();
    new_project_config(style, project_path, project_name, now.as_str())
}

/// The configuration as it is written to disk now: as `stamped_config` makes
/// it, with the current time as `updated_at`.
pub fn stamped_config_now(config: &ProjectConfig) -> (c: ProjectConfig)
    ensures
        c.project_name@ == config.project_name@,
        c.project_path@ == config.project_path@,
        c.bwversions_path@ == config.bwversions_path@,
        opt_view(c.remote_url) == opt_view(config.remote_url),
        c.current_branch@ == config.current_branch@,
        c.created_at@ == config.created_at@,
        is_rfc3339_utc(c.updated_at@),
{
    let now = utc_now_rfc3339();
    stamped_config(config, now.as_str())
}

/// The record of a snapshot saved now: as `snapshot_manifest` makes it, with
/// the current time as its time stamp.
pub fn snapshot_manifest_now(
    snapshot_id: String,
    message: String,
    author: String,
    parent: Option<&SemanticIndex>,
    project_bytes: &[u8],
    index_bytes: &[u8],
) -> (m: SnapshotManifest)
    ensures
        m.snapshot_id@ == snapshot_id@,
        m.message@ == message@,
        m.author@ == author@,
        is_rfc3339_utc(m.timestamp@),
        opt_view(m.parent_snapshot_id) == match parent {
            Some(p) => Some(p.snapshot_id@),
            None => None,
        },
        m.dawproject_hash@ == blake3_hex_of(project_bytes@),
        m.semantic_index_hash@ == blake3_hex_of(index_bytes@),
{
    let now = utc_now_rfc3339();
    snapshot_manifest(snapshot_id, message, author, now, parent, project_bytes, index_bytes)
}

// ---------------------------------------------------------------------------
// Snapshot identifiers.
// ---------------------------------------------------------------------------

/// `s` left-padded with `'0'` to at least `w` characters.
pub open spec fn zero_padded(s: Seq<char>, w: nat) -> Seq<char> {
    if s.len() >= w {
        s
    } else {
        Seq::new((w - s.len()) as nat, |i: int| '0') + s
    }
}

/// How chrono renders `%Y`: four digits for years 0 to 9999, otherwise a
/// sign followed by at least four digits.
pub open spec fn year_text(y: int) -> Seq<char> {
    if 0 <= y <= 9999 {
        zero_padded(decimal_digits(y as nat), 4)
    } else if y < 0 {
        seq!['-'] + zero_padded(decimal_digits((-y) as nat), 4)
    } else {
        seq!['+'] + zero_padded(decimal_digits(y as nat), 4)
    }
}

/// How chrono renders a two-digit field (`%m`, `%d`, `%H`, `%M`, `%S`).
pub open spec fn two_digit_text(v: int) -> Seq<char> {
    zero_padded(decimal_digits(v as nat), 2)
}

/// A date and time rendered as `%Y%m%d-%H%M%S`.
pub open spec fn compact_timestamp(y: int, mo: int, d: int, h: int, mi: int, s: int) -> Seq<char> {
    year_text(y) + two_digit_text(mo) + two_digit_text(d) + "-"@ + two_digit_text(h)
        + two_digit_text(mi) + two_digit_text(s)
}

pub open spec fn valid_clock(y: int, mo: int, d: int, h: int, mi: int, s: int) -> bool {
    &&& -262144 <= y <= 262143
    &&& 1 <= mo <= 12
    &&& 1 <= d <= 31
    &&& 0 <= h <= 23
    &&& 0 <= mi <= 59
    &&& 0 <= s <= 59
}

/// `t` renders some valid date and time as `%Y%m%d-%H%M%S`.
pub open spec fn is_compact_timestamp(t: Seq<char>) -> bool {
    exists|y: int, mo: int, d: int, h: int, mi: int, s: int|
        valid_clock(y, mo, d, h, mi, s) && t == compact_timestamp(y, mo, d, h, mi, s)
}

/// The current UTC time, rendered by chrono as `%Y%m%d-%H%M%S`. Which time
/// it is rests on the clock; the contract states the shape of every outcome.
/// chrono panics when the system clock reads a time before 1970, a condition
/// of the machine that no argument controls.
#[verifier::external_body]
fn utc_now_compact() -> (r: String)
    ensures
        is_compact_timestamp(r@),
{
    chrono::Utc::now().format("%Y%m%d-%H%M%S").to_string()
}

/// A number drawn uniformly by rand's thread-local generator from
/// `0..=0xFF_FFFF`; only the range is stated. rand panics when the operating
/// system's random source fails, a condition of the machine that no argument
/// controls.
#[verifier::external_body]
fn random_u24() -> (r: u32)
    ensures
        r <= 0xFF_FFFF,
{
    rand::Rng::gen_range(&mut rand::thread_rng(), 0..=0xFF_FFFFu32)
}

pub open spec fn hex_char(d: int) -> char {
    if d < 10 {
        (d + 48) as char
    } else {
        (d + 87) as char
    }
}

/// The last `w` lowercase hexadecimal digits of `v`, most significant first.
pub open spec fn hex_text(v: nat, w: nat) -> Seq<char>
    decreases w,
{
    if w == 0 {
        Seq::empty()
    } else {
        hex_text(v / 16, (w - 1) as nat).push(hex_char((v % 16) as int))
    }
}

/// `v` as six lowercase hexadecimal digits (`{:06x}` for `v < 2^24`).
pub fn hex6(v: u32) -> (r: String)
    ensures
        r@ == hex_text(v as nat, 6),
{
    let mut digits: Vec<char> = Vec::new();
    let mut rest: u32 = v;
    let mut k: usize = 0;
    while k < 6
        invariant
            k <= 6,
            digits.len() == k,
            hex_text(v as nat, 6) == hex_text(rest as nat, (6 - k) as nat) + digits@.reverse(),
        decreases 6 - k,
    {
        let d = rest % 16;
        let c: char = if d < 10 {
            (d as u8 + 48) as char
        } else {
            (d as u8 + 87) as char
        };
        assert(c == hex_char(d as int));
        proof {
            assert(hex_text(rest as nat, (6 - k) as nat) == hex_text((rest / 16) as nat, (6 - k
                - 1) as nat).push(c));
            assert(digits@.push(c).reverse() =~= seq![c] + digits@.reverse());
        }
        digits.push(c);
        rest = rest / 16;
        k = k + 1;
    }
    let mut s = String::new();
    let mut i: usize = 6;
    while i > 0
        invariant
            i <= 6,
            digits.len() == 6,
            s@ == digits@.reverse().subrange(0, (6 - i) as int),
        decreases i,
    {
        i = i - 1;
        crate::text::push_char(&mut s, digits[i]);
        assert(s@ =~= digits@.reverse().subrange(0, (6 - i) as int));
    }
    assert(hex_text(rest as nat, 0) =~= Seq::<char>::empty());
    s
}

/// The identifier of a new snapshot: the UTC time as `%Y%m%d-%H%M%S`, a
/// dash, and six random lowercase hexadecimal digits.
pub fn generate_snapshot_id() -> (id: String)
    ensures
        exists|t: Seq<char>, n: nat|
            is_compact_timestamp(t) && n <= 0xFF_FFFF && id@ == t + "-"@ + hex_text(n, 6),
{
    let stamp = utc_now_compact();
    let n = random_u24();
    snapshot_id_from(stamp.as_str(), n)
}

/// The snapshot identifier made of time stamp `stamp` and drawn number `n`:
/// the stamp, a dash, and `n` as six lowercase hexadecimal digits (`{:06x}`).
pub fn snapshot_id_from(stamp: &str, n: u32) -> (id: String)
    requires
        n <= 0xFF_FFFF,
    ensures
        id@ == stamp@ + "-"@ + hex_text(n as nat, 6),
{
    let suffix = hex6(n);
    concat3(stamp, "-", suffix.as_str())
}

// ---------------------------------------------------------------------------
// Choosing the newest export or snapshot by name.
// ---------------------------------------------------------------------------

/// A file name whose extension (after the last dot, with a non-empty stem
/// before it) is `dawproject`.
pub open spec fn is_dawproject_name(n: Seq<char>) -> bool {
    n.len() > 11 && n.subrange(n.len() - 11, n.len() as int) == ".dawproject"@
}

pub fn has_dawproject_extension(name: &str) -> (r: bool)
    ensures
        r == is_dawproject_name(name@),
{
    let n = name.unicode_len();
    if n <= 11 {
        return false;
    }
    let tail = name.substring_char(n - 11, n);
    String::from_str(tail) == String::from_str(".dawproject")
}

/// The greatest (by byte order) of the first `k` names that `keep` accepts,
/// the later one among equal names, as `Iterator::max` picks it.
pub open spec fn greatest_upto(names: Seq<Seq<char>>, keep: spec_fn(Seq<char>) -> bool, k: int) -> Option<int>
    decreases k,
{
    if k <= 0 {
        None
    } else {
        let prev = greatest_upto(names, keep, k - 1);
        if !keep(names[k - 1]) {
            prev
        } else {
            match prev {
                None => Some(k - 1),
                Some(b) => if text_less(names[k - 1], names[b]) {
                    Some(b)
                } else {
                    Some(k - 1)
                },
            }
        }
    }
}

/// Which names take part in a choice by name.
pub enum NameFilter<'a> {
    /// Names with the `dawproject` extension.
    Exports,
    /// Every name.
    Any,
    /// Every name but the given one.
    OtherThan(&'a str),
}

pub open spec fn keeps(f: NameFilter) -> spec_fn(Seq<char>) -> bool {
    match f {
        NameFilter::Exports => |n: Seq<char>| is_dawproject_name(n),
        NameFilter::Any => |n: Seq<char>| true,
        NameFilter::OtherThan(c) => |n: Seq<char>| n != c@,
    }
}

fn kept(f: &NameFilter, name: &str) -> (r: bool)
    ensures
        r == keeps(*f)(name@),
{
    match f {
        NameFilter::Exports => has_dawproject_extension(name),
        NameFilter::Any => true,
        NameFilter::OtherThan(c) => String::from_str(name) != String::from_str(*c),
    }
}

fn greatest(names: &Vec<String>, filter: NameFilter) -> (r: Option<usize>)
    ensures
        opt_idx(r) == greatest_upto(names@.map_values(|s: String| s@), keeps(filter), names.len() as int),
{
    let ghost views = names@.map_values(|s: String| s@);
    let ghost keep = keeps(filter);
    let mut best: Option<usize> = None;
    let mut k: usize = 0;
    while k < names.len()
        invariant
            k <= names.len(),
            views == names@.map_values(|s: String| s@),
            keep == keeps(filter),
            opt_idx(best) == greatest_upto(views, keep, k as int),
            best matches Some(b) ==> b < k,
        decreases names.len() - k,
    {
        let take = kept(&filter, names[k].as_str());
        assert(take == keep(views[k as int]));
        if take {
            best = match best {
                None => Some(k),
                Some(b) => {
                    if names[k].less(&names[b]) {
                        Some(b)
                    } else {
                        Some(k)
                    }
                },
            };
        }
        k = k + 1;
    }
    best
}

pub open spec fn opt_idx(r: Option<usize>) -> Option<int> {
    match r {
        Some(i) => Some(i as int),
        None => None,
    }
}

/// Which of the files of the incoming directory is the newest export: the
/// greatest name with the `dawproject` extension.
pub fn latest_export(names: &Vec<String>) -> (r: Option<usize>)
    ensures
        opt_idx(r) == greatest_upto(names@.map_values(|s: String| s@), keeps(NameFilter::Exports), names.len() as int),
{
    greatest(names, NameFilter::Exports)
}

/// Which of the snapshot directories is the newest: the greatest name.
pub fn latest_snapshot(names: &Vec<String>) -> (r: Option<usize>)
    ensures
        opt_idx(r) == greatest_upto(names@.map_values(|s: String| s@), keeps(NameFilter::Any), names.len() as int),
{
    greatest(names, NameFilter::Any)
}

/// Which snapshot directory a new snapshot `current` follows: the greatest
/// name other than its own.
pub fn previous_snapshot(names: &Vec<String>, current: &str) -> (r: Option<usize>)
    ensures
        opt_idx(r) == greatest_upto(
            names@.map_values(|s: String| s@),
            keeps(NameFilter::OtherThan(current)),
            names.len() as int,
        ),
{
    greatest(names, NameFilter::OtherThan(current))
}

/// The newest of the first `k` files by modification time, among those with
/// the `dawproject` extension; of equal times the later file, as a stable
/// sort by time followed by taking the last file picks it.
pub open spec fn newest_upto(files: Seq<(Seq<char>, i128)>, k: int) -> Option<int>
    decreases k,
{
    if k <= 0 {
        None
    } else {
        let prev = newest_upto(files, k - 1);
        if !is_dawproject_name(files[k - 1].0) {
            prev
        } else {
            match prev {
                None => Some(k - 1),
                Some(b) => if files[k - 1].1 < files[b].1 {
                    Some(b)
                } else {
                    Some(k - 1)
                },
            }
        }
    }
}

/// Which of the files found below the incoming directory (each with its
/// modification time, in nanoseconds from the Unix epoch) is the newest
/// export.
pub fn newest_export(files: &Vec<(String, i128)>) -> (r: Option<usize>)
    ensures
        opt_idx(r) == newest_upto(files@.map_values(|f: (String, i128)| (f.0@, f.1)), files.len() as int),
{
    let ghost views = files@.map_values(|f: (String, i128)| (f.0@, f.1));
    let mut best: Option<usize> = None;
    let mut k: usize = 0;
    while k < files.len()
        invariant
            k <= files.len(),
            views == files@.map_values(|f: (String, i128)| (f.0@, f.1)),
            opt_idx(best) == newest_upto(views, k as int),
            best matches Some(b) ==> b < k,
        decreases files.len() - k,
    {
        assert(views[k as int] == (files@[k as int].0@, files@[k as int].1));
        if has_dawproject_extension(files[k].0.as_str()) {
            best = match best {
                None => Some(k),
                Some(b) => {
                    if files[k].1 < files[b].1 {
                        Some(b)
                    } else {
                        Some(k)
                    }
                },
            };
        }
        k = k + 1;
    }
    best
}

// ---------------------------------------------------------------------------
// The shape of snapshot identifiers.
// ---------------------------------------------------------------------------

pub open spec fn is_decimal_char(c: char) -> bool {
    '0' <= c <= '9'
}

pub open spec fn is_hex_char(c: char) -> bool {
    ('0' <= c <= '9') || ('a' <= c <= 'f')
}

pub open spec fn pow10(w: nat) -> nat
    decreases w,
{
    if w == 0 {
        1
    } else {
        10 * pow10((w - 1) as nat)
    }
}

proof fn lemma_decimal_digits(v: nat, w: nat)
    requires
        1 <= w,
        v < pow10(w),
    ensures
        1 <= decimal_digits(v).len() <= w,
        forall|i: int| 0 <= i < decimal_digits(v).len() ==> is_decimal_char(
            #[trigger] decimal_digits(v)[i],
        ),
    decreases v,
{
    if v >= 10 {
        assert(w >= 2) by {
            if w == 1 {
                assert(pow10(1) == 10 * pow10(0));
            }
        }
        assert(pow10(w) == 10 * pow10((w - 1) as nat));
        assert(v / 10 < pow10((w - 1) as nat));
        lemma_decimal_digits(v / 10, (w - 1) as nat);
        let d = decimal_digits(v / 10);
        assert(decimal_digits(v) == d.push(crate::text::digit_char((v % 10) as int)));
        assert forall|i: int| 0 <= i < decimal_digits(v).len() implies is_decimal_char(
            #[trigger] decimal_digits(v)[i],
        ) by {
            if i < d.len() {
                assert(decimal_digits(v)[i] == d[i]);
            }
        }
    }
}

proof fn lemma_padded_field(v: nat, w: nat)
    requires
        1 <= w,
        v < pow10(w),
    ensures
        zero_padded(decimal_digits(v), w).len() == w,
        forall|i: int| 0 <= i < w ==> is_decimal_char(#[trigger] zero_padded(decimal_digits(v), w)[i]),
{
    lemma_decimal_digits(v, w);
    let d = decimal_digits(v);
    let z = zero_padded(d, w);
    if d.len() < w {
        let pad = Seq::new((w - d.len()) as nat, |i: int| '0');
        assert forall|i: int| 0 <= i < w implies is_decimal_char(#[trigger] z[i]) by {
            if i < pad.len() {
                assert(z[i] == '0');
            } else {
                assert(z[i] == d[i - pad.len()]);
            }
        }
    }
}

proof fn lemma_hex_text(n: nat, w: nat)
    ensures
        hex_text(n, w).len() == w,
        forall|i: int| 0 <= i < w ==> is_hex_char(#[trigger] hex_text(n, w)[i]),
    decreases w,
{
    if w > 0 {
        lemma_hex_text(n / 16, (w - 1) as nat);
        let t = hex_text(n / 16, (w - 1) as nat);
        assert forall|i: int| 0 <= i < w implies is_hex_char(#[trigger] hex_text(n, w)[i]) by {
            if i < t.len() {
                assert(hex_text(n, w)[i] == t[i]);
            }
        }
    }
}

/// Snapshot identifiers made in the years 0 to 9999 have 22 characters:
/// eight digits (the date), a dash, six digits (the time), a dash, and six
/// lowercase hexadecimal digits.
pub proof fn lemma_snapshot_id_shape(y: int, mo: int, d: int, h: int, mi: int, s: int, n: nat)
    requires
        valid_clock(y, mo, d, h, mi, s),
        0 <= y <= 9999,
        n <= 0xFF_FFFF,
    ensures
        ({
            let id = compact_timestamp(y, mo, d, h, mi, s) + "-"@ + hex_text(n, 6);
            &&& id.len() == 22
            &&& forall|i: int| 0 <= i < 8 ==> is_decimal_char(#[trigger] id[i])
            &&& id[8] == '-'
            &&& forall|i: int| 9 <= i < 15 ==> is_decimal_char(#[trigger] id[i])
            &&& id[15] == '-'
            &&& forall|i: int| 16 <= i < 22 ==> is_hex_char(#[trigger] id[i])
        }),
{
    reveal_strlit("-");
    assert(pow10(0) == 1);
    assert(pow10(1) == 10);
    assert(pow10(2) == 100);
    assert(pow10(3) == 1000);
    assert(pow10(4) == 10000);
    lemma_padded_field(y as nat, 4);
    lemma_padded_field(mo as nat, 2);
    lemma_padded_field(d as nat, 2);
    lemma_padded_field(h as nat, 2);
    lemma_padded_field(mi as nat, 2);
    lemma_padded_field(s as nat, 2);
    lemma_hex_text(n, 6);
    let yt = year_text(y);
    let id = compact_timestamp(y, mo, d, h, mi, s) + "-"@ + hex_text(n, 6);
    assert(yt == zero_padded(decimal_digits(y as nat), 4));
    assert forall|i: int| 0 <= i < 8 implies is_decimal_char(#[trigger] id[i]) by {
        if i < 4 {
            assert(id[i] == yt[i]);
        } else if i < 6 {
            assert(id[i] == two_digit_text(mo)[i - 4]);
        } else {
            assert(id[i] == two_digit_text(d)[i - 6]);
        }
    }
    assert forall|i: int| 9 <= i < 15 implies is_decimal_char(#[trigger] id[i]) by {
        if i < 11 {
            assert(id[i] == two_digit_text(h)[i - 9]);
        } else if i < 13 {
            assert(id[i] == two_digit_text(mi)[i - 11]);
        } else {
            assert(id[i] == two_digit_text(s)[i - 13]);
        }
    }
    assert forall|i: int| 16 <= i < 22 implies is_hex_char(#[trigger] id[i]) by {
        assert(id[i] == hex_text(n, 6)[i - 16]);
    }
}

} // verus!
