//! The semantic index of a project document: its tracks with their clips and
//! devices, and the audio files it references, each with a fingerprint.

use vstd::prelude::*;
use vstd::multiset::Multiset;
use crate::model::{
    AssetIndex, AssetView, ClipIndex, ClipView, DeviceIndex, DeviceView, IndexView, NumberValue,
    NumberView, SemanticIndex, TrackIndex, TrackView, opt_number_view,
};
use crate::text::{
    contains, decimal_digits, eq_ignore_ascii_case, lower, occurs_in, remove_white_space,
    string_views, to_ascii_lowercase, trim, trimmed, usize_text, without_white_space,
};
use crate::xml::{XmlAttrView, XmlNode, XmlNodeView, node_views, well_formed_nodes, xml_document};
use crate::dawproject::{
    NumberEntry, XmlDoc, attribute, number_texts_upto, get_attribute, lookup_number, first_attr, number_of, text_or_empty, project_name_of,
    tempo_of, time_signature_of, extract_project_name, extract_tempo, extract_time_signature,
};

verus! {

// ---------------------------------------------------------------------------
// Outside functions: BLAKE3 and debug rendering.
// ---------------------------------------------------------------------------

/// The lowercase hexadecimal BLAKE3 digest of `data`.
pub uninterp spec fn blake3_hex_of(data: Seq<u8>) -> Seq<char>;

pub open spec fn is_lower_hex(c: char) -> bool {
    ('0' <= c <= '9') || ('a' <= c <= 'f')
}

/// `blake3::hash(data).to_hex()`: the 32-byte digest as 64 lowercase
/// hexadecimal digits.
#[verifier::external_body]
pub(crate) fn blake3_hex(data: &[u8]) -> (r: String)
    ensures
        r@ == blake3_hex_of(data@),
        r@.len() == 64,
        forall|i: int| 0 <= i < 64 ==> is_lower_hex(#[trigger] r@[i]),
{
    blake3::hash(data).to_hex().to_string()
}

/// How `{:?}` renders a list of string pairs.
pub uninterp spec fn debug_pairs(v: Seq<(Seq<char>, Seq<char>)>) -> Seq<char>;

/// How `{:?}` renders a list of strings.
pub uninterp spec fn debug_strings(v: Seq<Seq<char>>) -> Seq<char>;

pub open spec fn pair_views(v: Seq<(String, String)>) -> Seq<(Seq<char>, Seq<char>)> {
    v.map_values(|p: (String, String)| (p.0@, p.1@))
}

/// `format!("{:?}", v)` for a list of string pairs.
#[verifier::external_body]
fn debug_pairs_text(v: &Vec<(String, String)>) -> (r: String)
    ensures
        r@ == debug_pairs(pair_views(v@)),
{
    format!("{:?}", v)
}

/// `format!("{:?}", v)` for a list of strings.
#[verifier::external_body]
fn debug_strings_text(v: &Vec<String>) -> (r: String)
    ensures
        r@ == debug_strings(string_views(v@)),
{
    format!("{:?}", v)
}

// ---------------------------------------------------------------------------
// Kinds of elements.
// ---------------------------------------------------------------------------

pub open spec fn is_track_tag_spec(tag: Seq<char>) -> bool {
    occurs_in("track"@, tag) || occurs_in("channel"@, tag) || occurs_in("lane"@, tag)
}

pub open spec fn is_clip_tag_spec(tag: Seq<char>) -> bool {
    occurs_in("clip"@, tag) || occurs_in("region"@, tag) || occurs_in("event"@, tag) || occurs_in(
        "note"@,
        tag,
    )
}

pub open spec fn is_device_tag_spec(tag: Seq<char>) -> bool {
    occurs_in("device"@, tag) || occurs_in("plugin"@, tag) || occurs_in("instrument"@, tag)
        || occurs_in("effect"@, tag)
}

pub open spec fn is_asset_tag_spec(tag: Seq<char>) -> bool {
    occurs_in("audio"@, tag) || occurs_in("sample"@, tag) || occurs_in("file"@, tag)
}

/// A (lowercase) tag names a track: it contains `track`, `channel` or `lane`.
pub fn is_track_tag(tag: &str) -> (r: bool)
    ensures
        r == is_track_tag_spec(tag@),
{
    contains(tag, "track") || contains(tag, "channel") || contains(tag, "lane")
}

/// A (lowercase) tag names a clip: it contains `clip`, `region`, `event` or `note`.
pub fn is_clip_tag(tag: &str) -> (r: bool)
    ensures
        r == is_clip_tag_spec(tag@),
{
    contains(tag, "clip") || contains(tag, "region") || contains(tag, "event") || contains(
        tag,
        "note",
    )
}

/// A (lowercase) tag names a device: it contains `device`, `plugin`,
/// `instrument` or `effect`.
pub fn is_device_tag(tag: &str) -> (r: bool)
    ensures
        r == is_device_tag_spec(tag@),
{
    contains(tag, "device") || contains(tag, "plugin") || contains(tag, "instrument") || contains(
        tag,
        "effect",
    )
}

/// A (lowercase) tag names an audio file: it contains `audio`, `sample` or `file`.
pub fn is_asset_tag(tag: &str) -> (r: bool)
    ensures
        r == is_asset_tag_spec(tag@),
{
    contains(tag, "audio") || contains(tag, "sample") || contains(tag, "file")
}

// ---------------------------------------------------------------------------
// Sorting by byte order, as `Ord` on `String` does.
// ---------------------------------------------------------------------------

/// Lexicographic order on byte strings.
pub open spec fn bytes_less(a: Seq<u8>, b: Seq<u8>) -> bool
    decreases a.len(),
{
    if a.len() == 0 {
        b.len() > 0
    } else if b.len() == 0 {
        false
    } else if a[0] != b[0] {
        a[0] < b[0]
    } else {
        bytes_less(a.drop_first(), b.drop_first())
    }
}

/// The order of `String`: by UTF-8 bytes.
pub open spec fn text_less(a: Seq<char>, b: Seq<char>) -> bool {
    bytes_less(vstd::utf8::encode_utf8(a), vstd::utf8::encode_utf8(b))
}

fn bytes_below(a: &[u8], b: &[u8]) -> (r: bool)
    ensures
        r == bytes_less(a@, b@),
{
    let mut i: usize = 0;
    assert(a@.skip(0) =~= a@);
    assert(b@.skip(0) =~= b@);
    while i < a.len() && i < b.len()
        invariant
            i <= a.len(),
            i <= b.len(),
            bytes_less(a@, b@) == bytes_less(a@.skip(i as int), b@.skip(i as int)),
        decreases a.len() - i,
    {
        assert(a@.skip(i as int).drop_first() =~= a@.skip(i + 1));
        assert(b@.skip(i as int).drop_first() =~= b@.skip(i + 1));
        if a[i] != b[i] {
            return a[i] < b[i];
        }
        i = i + 1;
    }
    a.len() < b.len()
}

proof fn lemma_bytes_irreflexive(a: Seq<u8>)
    ensures
        !bytes_less(a, a),
    decreases a.len(),
{
    if a.len() > 0 {
        lemma_bytes_irreflexive(a.drop_first());
    }
}

proof fn lemma_bytes_transitive(a: Seq<u8>, b: Seq<u8>, c: Seq<u8>)
    requires
        bytes_less(a, b),
        bytes_less(b, c),
    ensures
        bytes_less(a, c),
    decreases a.len(),
{
    if a.len() > 0 && a[0] == b[0] && b[0] == c[0] {
        lemma_bytes_transitive(a.drop_first(), b.drop_first(), c.drop_first());
    }
}

proof fn lemma_bytes_total(a: Seq<u8>, b: Seq<u8>)
    requires
        a != b,
    ensures
        bytes_less(a, b) || bytes_less(b, a),
    decreases a.len(),
{
    if a.len() == 0 && b.len() == 0 {
        assert(a =~= b);
    }
    if a.len() > 0 && b.len() > 0 && a[0] == b[0] {
        if a.drop_first() == b.drop_first() {
            assert(a =~= seq![a[0]] + a.drop_first());
            assert(b =~= seq![b[0]] + b.drop_first());
        }
        lemma_bytes_total(a.drop_first(), b.drop_first());
    }
}

/// The order of strings is a strict total order.
proof fn lemma_text_order(a: Seq<char>, b: Seq<char>, c: Seq<char>)
    ensures
        !text_less(a, a),
        text_less(a, b) && text_less(b, c) ==> text_less(a, c),
        a != b ==> text_less(a, b) || text_less(b, a),
{
    let (ea, eb, ec) = (
        vstd::utf8::encode_utf8(a),
        vstd::utf8::encode_utf8(b),
        vstd::utf8::encode_utf8(c),
    );
    lemma_bytes_irreflexive(ea);
    if text_less(a, b) && text_less(b, c) {
        lemma_bytes_transitive(ea, eb, ec);
    }
    if a != b {
        vstd::utf8::encode_utf8_decode_utf8(a);
        vstd::utf8::encode_utf8_decode_utf8(b);
        lemma_bytes_total(ea, eb);
    }
}

/// Values ordered as `Ord` orders them, by their mathematical values.
pub trait ByteOrdered: View + Sized {
    spec fn less_view(a: Self::V, b: Self::V) -> bool;

    /// The order is a strict total order.
    proof fn lemma_order(a: Self::V, b: Self::V, c: Self::V)
        ensures
            !Self::less_view(a, a),
            Self::less_view(a, b) && Self::less_view(b, c) ==> Self::less_view(a, c),
            a != b ==> Self::less_view(a, b) || Self::less_view(b, a),
    ;

    fn less(&self, other: &Self) -> (r: bool)
        ensures
            r == Self::less_view(self@, other@),
    ;

    fn duplicate(&self) -> (r: Self)
        ensures
            r@ == self@,
    ;
}

impl ByteOrdered for String {
    open spec fn less_view(a: Seq<char>, b: Seq<char>) -> bool {
        text_less(a, b)
    }

    proof fn lemma_order(a: Seq<char>, b: Seq<char>, c: Seq<char>) {
        lemma_text_order(a, b, c);
    }

    fn less(&self, other: &Self) -> (r: bool) {
        bytes_below(self.as_str().as_bytes(), other.as_str().as_bytes())
    }

    fn duplicate(&self) -> (r: Self) {
        self.clone()
    }
}

/// Pairs are ordered by their first, then by their second component.
impl ByteOrdered for (String, String) {
    open spec fn less_view(a: (Seq<char>, Seq<char>), b: (Seq<char>, Seq<char>)) -> bool {
        text_less(a.0, b.0) || (a.0 == b.0 && text_less(a.1, b.1))
    }

    proof fn lemma_order(
        a: (Seq<char>, Seq<char>),
        b: (Seq<char>, Seq<char>),
        c: (Seq<char>, Seq<char>),
    ) {
        lemma_text_order(a.0, b.0, c.0);
        lemma_text_order(a.1, b.1, c.1);
        lemma_text_order(a.0, c.0, b.0);
        lemma_text_order(b.0, a.0, c.0);
    }

    fn less(&self, other: &Self) -> (r: bool) {
        bytes_below(self.0.as_str().as_bytes(), other.0.as_str().as_bytes()) || (self.0 == other.0
            && bytes_below(self.1.as_str().as_bytes(), other.1.as_str().as_bytes()))
    }

    fn duplicate(&self) -> (r: Self) {
        (self.0.clone(), self.1.clone())
    }
}

pub open spec fn views_of<T: View>(s: Seq<T>) -> Seq<T::V> {
    s.map_values(|t: T| t@)
}

pub open spec fn less_of<T: ByteOrdered>() -> spec_fn(T::V, T::V) -> bool {
    |a: T::V, b: T::V| T::less_view(a, b)
}

/// `less` is a strict total order.
pub open spec fn strict_total<V>(less: spec_fn(V, V) -> bool) -> bool {
    &&& forall|a: V| !#[trigger] less(a, a)
    &&& forall|a: V, b: V, c: V| #[trigger] less(a, b) && #[trigger] less(b, c) ==> less(a, c)
    &&& forall|a: V, b: V| a != b ==> #[trigger] less(a, b) || #[trigger] less(b, a)
}

/// `s` is in order: no element is less than one before it.
pub open spec fn in_order<V>(s: Seq<V>, less: spec_fn(V, V) -> bool) -> bool {
    forall|i: int, j: int| 0 <= i < j < s.len() ==> !less(#[trigger] s[j], #[trigger] s[i])
}

/// The elements of the multiset `m` in order: the sequence that is in order
/// and holds exactly the elements of `m`.
pub open spec fn sorted_of<V>(m: Multiset<V>, less: spec_fn(V, V) -> bool) -> Seq<V> {
    choose|t: Seq<V>| #[trigger] in_order(t, less) && t.to_multiset() == m
}

proof fn lemma_less_of_total<T: ByteOrdered>()
    ensures
        strict_total(less_of::<T>()),
{
    let less = less_of::<T>();
    assert forall|a: T::V| !#[trigger] less(a, a) by {
        T::lemma_order(a, a, a);
    }
    assert forall|a: T::V, b: T::V, c: T::V| #[trigger] less(a, b) && #[trigger] less(b, c) implies less(a, c) by {
        T::lemma_order(a, b, c);
    }
    assert forall|a: T::V, b: T::V| a != b implies #[trigger] less(a, b) || #[trigger] less(b, a) by {
        T::lemma_order(a, b, a);
    }
}

/// Under a strict total order, two sequences in order with the same elements
/// are equal.
proof fn lemma_in_order_unique<V>(s: Seq<V>, t: Seq<V>, less: spec_fn(V, V) -> bool)
    requires
        strict_total(less),
        in_order(s, less),
        in_order(t, less),
        s.to_multiset() == t.to_multiset(),
    ensures
        s == t,
    decreases s.len(),
{
    vstd::seq_lib::to_multiset_len(s);
    vstd::seq_lib::to_multiset_len(t);
    if s.len() == 0 {
        assert(s =~= t);
    } else {
        let x = s[0];
        let y = t[0];
        assert(s.contains(x));
        assert(t.contains(y));
        vstd::seq_lib::to_multiset_contains(s, x);
        vstd::seq_lib::to_multiset_contains(t, x);
        vstd::seq_lib::to_multiset_contains(s, y);
        vstd::seq_lib::to_multiset_contains(t, y);
        let j = choose|j: int| 0 <= j < t.len() && t[j] == x;
        let i = choose|i: int| 0 <= i < s.len() && s[i] == y;
        if j > 0 {
            assert(!less(t[j], t[0]));
        }
        if i > 0 {
            assert(!less(s[i], s[0]));
        }
        assert(x == y);
        vstd::seq_lib::to_multiset_remove(s, 0);
        vstd::seq_lib::to_multiset_remove(t, 0);
        let s1 = s.remove(0);
        let t1 = t.remove(0);
        assert forall|a: int, b: int| 0 <= a < b < s1.len() implies !less(#[trigger] s1[b], #[trigger] s1[a]) by {
            assert(s1[a] == s[a + 1] && s1[b] == s[b + 1]);
        }
        assert forall|a: int, b: int| 0 <= a < b < t1.len() implies !less(#[trigger] t1[b], #[trigger] t1[a]) by {
            assert(t1[a] == t[a + 1] && t1[b] == t[b + 1]);
        }
        lemma_in_order_unique(s1, t1, less);
        assert(s =~= t) by {
            assert forall|k: int| 0 <= k < s.len() implies s[k] == t[k] by {
                if k > 0 {
                    assert(s[k] == s1[k - 1] && t[k] == t1[k - 1]);
                }
            }
        }
    }
}

/// A sequence in order is the ordering of its own elements.
proof fn lemma_sorted_of<V>(s: Seq<V>, less: spec_fn(V, V) -> bool)
    requires
        strict_total(less),
        in_order(s, less),
    ensures
        sorted_of(s.to_multiset(), less) == s,
{
    assert(in_order(s, less) && s.to_multiset() == s.to_multiset());
    let c = sorted_of(s.to_multiset(), less);
    lemma_in_order_unique(c, s, less);
}

/// The elements of `v` in order.
fn sort_values<T: ByteOrdered>(v: &Vec<T>) -> (out: Vec<T>)
    ensures
        in_order(views_of(out@), less_of::<T>()),
        views_of(out@).to_multiset() == views_of(v@).to_multiset(),
        sorted_of(views_of(v@).to_multiset(), less_of::<T>()) == views_of(out@),
{
    let ghost less = less_of::<T>();
    proof {
        lemma_less_of_total::<T>();
    }
    let mut out: Vec<T> = Vec::new();
    let mut i: usize = 0;
    assert(views_of(v@).take(0) =~= Seq::<T::V>::empty());
    assert(views_of(out@) =~= Seq::<T::V>::empty());
    while i < v.len()
        invariant
            i <= v.len(),
            less == less_of::<T>(),
            strict_total(less),
            in_order(views_of(out@), less),
            views_of(out@).to_multiset() == views_of(v@).take(i as int).to_multiset(),
            out.len() == i,
        decreases v.len() - i,
    {
        let x = &v[i];
        let ghost t = views_of(out@);
        let mut k: usize = 0;
        while k < out.len() && !x.less(&out[k])
            invariant
                k <= out.len(),
                t == views_of(out@),
                less == less_of::<T>(),
                forall|m: int| 0 <= m < k ==> !less(x@, #[trigger] t[m]),
            decreases out.len() - k,
        {
            k = k + 1;
        }
        assert(k < t.len() ==> less(x@, t[k as int]));
        let y = x.duplicate();
        out.insert(k, y);
        proof {
            let u = t.insert(k as int, x@);
            assert(views_of(out@) =~= u);
            assert forall|a: int, b: int| 0 <= a < b < u.len() implies !less(#[trigger] u[b], #[trigger] u[a]) by {
                if b < k {
                    assert(u[a] == t[a] && u[b] == t[b]);
                } else if b == k {
                    assert(u[a] == t[a] && u[b] == x@);
                } else if a < k {
                    assert(u[a] == t[a] && u[b] == t[b - 1]);
                } else if a == k {
                    assert(u[a] == x@ && u[b] == t[b - 1]);
                    assert(less(x@, t[k as int]));
                    if less(t[b - 1], x@) {
                        assert(less(t[b - 1], t[k as int]));
                        if b - 1 > k {
                            assert(!less(t[b - 1], t[k as int]));
                        }
                    }
                } else {
                    assert(u[a] == t[a - 1] && u[b] == t[b - 1]);
                }
            }
            vstd::seq_lib::to_multiset_insert(t, k as int, x@);
            let w = views_of(v@).take(i + 1);
            assert(w =~= views_of(v@).take(i as int).push(x@));
            vstd::seq_lib::to_multiset_build(views_of(v@).take(i as int), x@);
        }
        i = i + 1;
    }
    assert(views_of(v@).take(v.len() as int) =~= views_of(v@));
    proof {
        lemma_sorted_of(views_of(out@), less);
    }
    out
}

// ---------------------------------------------------------------------------
// Identities and fingerprints of elements.
// ---------------------------------------------------------------------------

pub open spec fn or_else(a: Option<Seq<char>>, b: Seq<char>) -> Seq<char> {
    match a {
        Some(v) => v,
        None => b,
    }
}

/// The id of an element: its `id` attribute, else the first twelve digits of
/// the BLAKE3 digest of its tag, its name and its position `index`.
pub open spec fn node_id_of(n: XmlNodeView, index: nat) -> Seq<char> {
    match attribute(n, "id"@) {
        Some(v) => v,
        None => blake3_hex_of(
            vstd::utf8::encode_utf8(n.tag + or_else(attribute(n, "name"@), Seq::empty()) + decimal_digits(index)),
        ).subrange(0, 12),
    }
}

fn node_id(n: &XmlNode, index: usize) -> (r: String)
    ensures
        r@ == node_id_of(n@, index as nat),
{
    match get_attribute(n, "id") {
        Some(id) => id,
        None => {
            let name = match get_attribute(n, "name") {
                Some(v) => v,
                None => String::new(),
            };
            let digits = usize_text(index);
            let basis = crate::text::concat3(n.tag.as_str(), name.as_str(), digits.as_str());
            let h = blake3_hex(basis.as_str().as_bytes());
            String::from_str(h.as_str().substring_char(0, 12))
        },
    }
}

/// The attributes of an element as (lowercase name, trimmed value).
pub open spec fn attr_pairs(n: XmlNodeView) -> Seq<(Seq<char>, Seq<char>)> {
    n.attrs.map_values(|a: XmlAttrView| (lower(a.name), trimmed(a.value)))
}

/// The lowercase tags of the first `m` children that are elements.
pub open spec fn child_tags_upto(ns: Seq<XmlNodeView>, cs: Seq<usize>, m: int) -> Seq<Seq<char>>
    decreases m,
{
    if m <= 0 {
        Seq::empty()
    } else {
        child_tags_upto(ns, cs, m - 1) + if ns[cs[m - 1] as int].element {
            seq![lower(ns[cs[m - 1] as int].tag)]
        } else {
            Seq::empty()
        }
    }
}

pub open spec fn child_tags(ns: Seq<XmlNodeView>, n: XmlNodeView) -> Seq<Seq<char>> {
    child_tags_upto(ns, n.children, n.children.len() as int)
}

/// What an element's fingerprint digests: its lowercase tag, its sorted
/// attribute pairs and sorted child tags as `{:?}` renders them, and its text
/// without white space, separated by `|`.
pub open spec fn fingerprint_payload(ns: Seq<XmlNodeView>, n: XmlNodeView) -> Seq<char> {
    lower(n.tag) + "|"@ + debug_pairs(
        sorted_of(attr_pairs(n).to_multiset(), less_of::<(String, String)>()),
    ) + "|"@ + debug_strings(sorted_of(child_tags(ns, n).to_multiset(), less_of::<String>()))
        + "|"@
        + without_white_space(text_or_empty(n))
}

pub open spec fn fingerprint_of(ns: Seq<XmlNodeView>, n: XmlNodeView) -> Seq<char> {
    blake3_hex_of(vstd::utf8::encode_utf8(fingerprint_payload(ns, n)))
}

/// An element's fingerprint (`fingerprint_node`) depends only on its lowercase tag, the multiset
/// of its (lowercase name, trimmed value) attribute pairs, the multiset of the
/// lowercase tags of its child elements, and its text without white space:
/// neither the order of attributes and children nor anything below the
/// children changes it.
pub proof fn lemma_fingerprint_ignores_order(
    ns1: Seq<XmlNodeView>,
    n1: XmlNodeView,
    ns2: Seq<XmlNodeView>,
    n2: XmlNodeView,
)
    requires
        lower(n1.tag) == lower(n2.tag),
        attr_pairs(n1).to_multiset() == attr_pairs(n2).to_multiset(),
        child_tags(ns1, n1).to_multiset() == child_tags(ns2, n2).to_multiset(),
        without_white_space(text_or_empty(n1)) == without_white_space(text_or_empty(n2)),
    ensures
        fingerprint_of(ns1, n1) == fingerprint_of(ns2, n2),
{
    assert(fingerprint_payload(ns1, n1) == fingerprint_payload(ns2, n2));
}

/// The fingerprint of element `k` of a document: 64 lowercase hexadecimal
/// digits, which by `lemma_fingerprint_ignores_order` depend neither on the
/// order of its attributes and children nor on anything below its children.
pub fn fingerprint_node(doc: &XmlDoc, k: usize) -> (r: String)
    requires
        k < doc@.len(),
    ensures
        r@ == fingerprint_of(doc@, doc@[k as int]),
        r@.len() == 64,
        forall|i: int| 0 <= i < 64 ==> is_lower_hex(#[trigger] r@[i]),
{
    let nodes = doc.nodes();
    fingerprint_at(nodes, k)
}

fn fingerprint_at(nodes: &Vec<XmlNode>, k: usize) -> (r: String)
    requires
        well_formed_nodes(node_views(nodes@)),
        k < nodes.len(),
    ensures
        r@ == fingerprint_of(node_views(nodes@), nodes@[k as int]@),
        r@.len() == 64,
        forall|i: int| 0 <= i < 64 ==> is_lower_hex(#[trigger] r@[i]),
{
    let n = &nodes[k];
    let mut pairs: Vec<(String, String)> = Vec::new();
    let mut i: usize = 0;
    while i < n.attrs.len()
        invariant
            i <= n.attrs.len(),
            k < nodes.len(),
            n == nodes@[k as int],
            views_of(pairs@) == attr_pairs(n@).take(i as int),
        decreases n.attrs.len() - i,
    {
        let a = &n.attrs[i];
        let p = (to_ascii_lowercase(a.name.as_str()), String::from_str(trim(a.value.as_str())));
        assert(p@ == attr_pairs(n@)[i as int]);
        let ghost before = views_of(pairs@);
        pairs.push(p);
        assert(views_of(pairs@) =~= before.push(p@));
        assert(views_of(pairs@) =~= attr_pairs(n@).take(i + 1));
        i = i + 1;
    }
    assert(attr_pairs(n@).take(n.attrs.len() as int) =~= attr_pairs(n@));
    let mut tags: Vec<String> = Vec::new();
    let mut j: usize = 0;
    while j < n.children.len()
        invariant
            j <= n.children.len(),
            n == nodes@[k as int],
            well_formed_nodes(node_views(nodes@)),
            k < nodes.len(),
            views_of(tags@) == child_tags_upto(node_views(nodes@), n@.children, j as int),
        decreases n.children.len() - j,
    {
        let c = n.children[j];
        assert(node_views(nodes@)[k as int].children[j as int] == c);
        assert(c < nodes.len());
        if nodes[c].element {
            tags.push(to_ascii_lowercase(nodes[c].tag.as_str()));
        }
        assert(views_of(tags@) =~= child_tags_upto(node_views(nodes@), n@.children, j + 1));
        j = j + 1;
    }
    let sorted_pairs = sort_values(&pairs);
    let sorted_tags = sort_values(&tags);
    assert(pair_views(sorted_pairs@) =~= views_of(sorted_pairs@));
    assert(string_views(sorted_tags@) =~= views_of(sorted_tags@));
    let text = match &n.text {
        Some(t) => remove_white_space(t.as_str()),
        None => remove_white_space(""),
    };
    proof {
        reveal_strlit("");
        assert(without_white_space(Seq::<char>::empty()) =~= Seq::<char>::empty());
    }
    let mut payload = to_ascii_lowercase(n.tag.as_str());
    payload.append("|");
    payload.append(debug_pairs_text(&sorted_pairs).as_str());
    payload.append("|");
    payload.append(debug_strings_text(&sorted_tags).as_str());
    payload.append("|");
    payload.append(text.as_str());
    assert(payload@ == fingerprint_payload(node_views(nodes@), n@));
    blake3_hex(payload.as_str().as_bytes())
}

// ---------------------------------------------------------------------------
// Clips, devices, tracks and assets.
// ---------------------------------------------------------------------------

/// How many of the nodes `a..b` are elements.
pub open spec fn elements_between(ns: Seq<XmlNodeView>, a: int, b: int) -> nat
    decreases b - a,
{
    if b <= a {
        0
    } else {
        elements_between(ns, a, b - 1) + if ns[b - 1].element {
            1nat
        } else {
            0nat
        }
    }
}

/// The first attribute called `n1`, `n2` or `n3` (in any case) whose value
/// reads as a number.
pub open spec fn number_attr(
    table: Seq<NumberEntry>,
    n: XmlNodeView,
    n1: Seq<char>,
    n2: Seq<char>,
    n3: Seq<char>,
) -> Option<NumberValue> {
    first_attr(
        n.attrs,
        |a: XmlAttrView|
            if lower(a.name) == lower(n1) || lower(a.name) == lower(n2) || lower(a.name) == lower(
                n3,
            ) {
                number_of(table, trimmed(a.value))
            } else {
                None
            },
        0,
    )
}

fn attr_number(table: &Vec<NumberEntry>, n: &XmlNode, n1: &str, n2: &str, n3: &str) -> (r: Option<
    NumberValue,
>)
    ensures
        r == number_attr(table@, n@, n1@, n2@, n3@),
{
    let ghost f = |a: XmlAttrView|
        if lower(a.name) == lower(n1@) || lower(a.name) == lower(n2@) || lower(a.name) == lower(
            n3@,
        ) {
            number_of(table@, trimmed(a.value))
        } else {
            None
        };
    let mut k: usize = 0;
    while k < n.attrs.len()
        invariant
            k <= n.attrs.len(),
            f == (|a: XmlAttrView|
                if lower(a.name) == lower(n1@) || lower(a.name) == lower(n2@) || lower(a.name)
                    == lower(n3@) {
                    number_of(table@, trimmed(a.value))
                } else {
                    None
                }),
            first_attr(n@.attrs, f, 0) == first_attr(n@.attrs, f, k as int),
        decreases n.attrs.len() - k,
    {
        let a = &n.attrs[k];
        if eq_ignore_ascii_case(a.name.as_str(), n1) || eq_ignore_ascii_case(a.name.as_str(), n2)
            || eq_ignore_ascii_case(a.name.as_str(), n3) {
            let v = lookup_number(table, trim(a.value.as_str()));
            if v.is_some() {
                return v;
            }
        }
        k = k + 1;
    }
    None
}

/// Zero, as a position that is missing is taken to be.
pub open spec fn zero_number() -> NumberView {
    NumberView { bits: 0, text: "0"@ }
}

pub open spec fn number_or_zero(n: Option<NumberValue>) -> NumberView {
    match n {
        Some(v) => v@,
        None => zero_number(),
    }
}

fn number_value_or_zero(n: Option<NumberValue>) -> (r: NumberValue)
    ensures
        r@ == number_or_zero(n),
{
    match n {
        Some(v) => v,
        None => NumberValue { bits: 0, text: String::from_str("0") },
    }
}

/// The clip described by element `j`, the `index`-th element of its track.
pub open spec fn clip_view(ns: Seq<XmlNodeView>, table: Seq<NumberEntry>, j: int, index: nat) -> ClipView {
    ClipView {
        id: node_id_of(ns[j], index),
        name: attribute(ns[j], "name"@),
        start: number_or_zero(number_attr(table, ns[j], "start"@, "position"@, "beat"@)),
        length: number_or_zero(number_attr(table, ns[j], "length"@, "duration"@, "len"@)),
        fingerprint: fingerprint_of(ns, ns[j]),
    }
}

/// The device described by element `j`, the `index`-th element of its track.
pub open spec fn device_view(ns: Seq<XmlNodeView>, j: int, index: nat) -> DeviceView {
    DeviceView {
        id: node_id_of(ns[j], index),
        name: or_else(
            attribute(ns[j], "name"@),
            or_else(attribute(ns[j], "plugin"@), "Unnamed Device"@),
        ),
        device_type: lower(ns[j].tag),
        fingerprint: fingerprint_of(ns, ns[j]),
    }
}

/// The clips among the first `m` nodes of the subtree of track `i`.
pub open spec fn clips_in(ns: Seq<XmlNodeView>, table: Seq<NumberEntry>, i: int, m: int) -> Seq<ClipView>
    decreases m,
{
    if m <= 0 {
        Seq::empty()
    } else {
        let j = i + m - 1;
        clips_in(ns, table, i, m - 1) + if ns[j].element && is_clip_tag_spec(lower(ns[j].tag)) {
            seq![clip_view(ns, table, j, elements_between(ns, i, j))]
        } else {
            Seq::empty()
        }
    }
}

/// The devices among the first `m` nodes of the subtree of track `i`.
pub open spec fn devices_in(ns: Seq<XmlNodeView>, i: int, m: int) -> Seq<DeviceView>
    decreases m,
{
    if m <= 0 {
        Seq::empty()
    } else {
        let j = i + m - 1;
        devices_in(ns, i, m - 1) + if ns[j].element && is_device_tag_spec(lower(ns[j].tag)) {
            seq![device_view(ns, j, elements_between(ns, i, j))]
        } else {
            Seq::empty()
        }
    }
}

/// The track described by element `i`.
pub open spec fn track_view(ns: Seq<XmlNodeView>, table: Seq<NumberEntry>, i: int) -> TrackView {
    TrackView {
        id: node_id_of(ns[i], elements_between(ns, 0, i)),
        name: or_else(
            attribute(ns[i], "name"@),
            or_else(attribute(ns[i], "title"@), "Unnamed Track"@),
        ),
        track_type: lower(ns[i].tag),
        clips: clips_in(ns, table, i, ns[i].descendants as int),
        devices: devices_in(ns, i, ns[i].descendants as int),
        fingerprint: fingerprint_of(ns, ns[i]),
    }
}

/// The tracks among the first `k` nodes.
pub open spec fn tracks_upto(ns: Seq<XmlNodeView>, table: Seq<NumberEntry>, k: int) -> Seq<TrackView>
    decreases k,
{
    if k <= 0 {
        Seq::empty()
    } else {
        tracks_upto(ns, table, k - 1) + if ns[k - 1].element && is_track_tag_spec(
            lower(ns[k - 1].tag),
        ) {
            seq![track_view(ns, table, k - 1)]
        } else {
            Seq::empty()
        }
    }
}

/// The audio file an element references by a `file` or `path` attribute.
pub open spec fn asset_in(n: XmlNodeView) -> Option<AssetView> {
    let p = match attribute(n, "file"@) {
        Some(v) => Some(v),
        None => attribute(n, "path"@),
    };
    match p {
        Some(path) => Some(
            AssetView {
                path,
                hash: blake3_hex_of(vstd::utf8::encode_utf8(path)),
                asset_type: lower(n.tag),
            },
        ),
        None => None,
    }
}

/// The assets among the first `k` nodes.
pub open spec fn assets_upto(ns: Seq<XmlNodeView>, k: int) -> Seq<AssetView>
    decreases k,
{
    if k <= 0 {
        Seq::empty()
    } else {
        assets_upto(ns, k - 1) + if ns[k - 1].element && is_asset_tag_spec(lower(ns[k - 1].tag)) {
            match asset_in(ns[k - 1]) {
                Some(a) => seq![a],
                None => Seq::empty(),
            }
        } else {
            Seq::empty()
        }
    }
}

proof fn lemma_elements_step(ns: Seq<XmlNodeView>, a: int, b: int)
    requires
        a <= b,
    ensures
        elements_between(ns, a, b + 1) == elements_between(ns, a, b) + if ns[b].element {
            1nat
        } else {
            0nat
        },
{
}

fn track_at(nodes: &Vec<XmlNode>, table: &Vec<NumberEntry>, i: usize, rank: usize) -> (t: TrackIndex)
    requires
        well_formed_nodes(node_views(nodes@)),
        i < nodes.len(),
        rank == elements_between(node_views(nodes@), 0, i as int),
    ensures
        t@ == track_view(node_views(nodes@), table@, i as int),
{
    let n = &nodes[i];
    assert(node_views(nodes@).len() == nodes.len());
    assert(node_views(nodes@)[i as int].descendants == n.descendants);
    let end = i + n.descendants;
    let mut clips: Vec<ClipIndex> = Vec::new();
    let mut devices: Vec<DeviceIndex> = Vec::new();
    let mut j: usize = i;
    let mut child_rank: usize = 0;
    while j < end
        invariant
            i <= j <= end,
            end == i + nodes@[i as int].descendants,
            end <= nodes.len(),
            well_formed_nodes(node_views(nodes@)),
            child_rank == elements_between(node_views(nodes@), i as int, j as int),
            child_rank <= j - i,
            clips@.map_values(|c: ClipIndex| c@) == clips_in(node_views(nodes@), table@, i as int, j - i),
            devices@.map_values(|d: DeviceIndex| d@) == devices_in(node_views(nodes@), i as int, j - i),
        decreases end - j,
    {
        let c = &nodes[j];
        if c.element {
            let tag = to_ascii_lowercase(c.tag.as_str());
            if is_clip_tag(tag.as_str()) {
                let clip = ClipIndex {
                    id: node_id(c, child_rank),
                    name: get_attribute(c, "name"),
                    start: number_value_or_zero(attr_number(table, c, "start", "position", "beat")),
                    length: number_value_or_zero(attr_number(table, c, "length", "duration", "len")),
                    fingerprint: fingerprint_at(nodes, j),
                };
                let ghost before = clips@.map_values(|c: ClipIndex| c@);
                clips.push(clip);
                assert(clips@.map_values(|c: ClipIndex| c@) =~= before.push(clip@));
            }
            if is_device_tag(tag.as_str()) {
                let name = match get_attribute(c, "name") {
                    Some(v) => v,
                    None => match get_attribute(c, "plugin") {
                        Some(v) => v,
                        None => String::from_str("Unnamed Device"),
                    },
                };
                let device = DeviceIndex {
                    id: node_id(c, child_rank),
                    name,
                    device_type: tag,
                    fingerprint: fingerprint_at(nodes, j),
                };
                let ghost before = devices@.map_values(|d: DeviceIndex| d@);
                devices.push(device);
                assert(devices@.map_values(|d: DeviceIndex| d@) =~= before.push(device@));
            }
        }
        proof {
            lemma_elements_step(node_views(nodes@), i as int, j as int);
        }
        assert(clips@.map_values(|c: ClipIndex| c@) =~= clips_in(node_views(nodes@), table@, i as int, j + 1 - i));
        assert(devices@.map_values(|d: DeviceIndex| d@) =~= devices_in(node_views(nodes@), i as int, j + 1 - i));
        if c.element {
            child_rank = child_rank + 1;
        }
        j = j + 1;
    }
    let name = match get_attribute(n, "name") {
        Some(v) => v,
        None => match get_attribute(n, "title") {
            Some(v) => v,
            None => String::from_str("Unnamed Track"),
        },
    };
    TrackIndex {
        id: node_id(n, rank),
        name,
        track_type: to_ascii_lowercase(n.tag.as_str()),
        clips,
        devices,
        fingerprint: fingerprint_at(nodes, i),
    }
}

fn asset_at(n: &XmlNode) -> (r: Option<AssetIndex>)
    ensures
        match r {
            Some(a) => asset_in(n@) == Some(a@),
            None => asset_in(n@) is None,
        },
{
    let p = match get_attribute(n, "file") {
        Some(v) => Some(v),
        None => get_attribute(n, "path"),
    };
    match p {
        Some(path) => {
            let hash = blake3_hex(path.as_str().as_bytes());
            Some(AssetIndex { path, hash, asset_type: to_ascii_lowercase(n.tag.as_str()) })
        },
        None => None,
    }
}

// ---------------------------------------------------------------------------
// The index of a document.
// ---------------------------------------------------------------------------

/// The UTF-8 bytes of the fingerprints of the first `k` tracks, concatenated.
pub open spec fn track_fingerprint_bytes(ts: Seq<TrackView>, k: int) -> Seq<u8>
    decreases k,
{
    if k <= 0 {
        Seq::empty()
    } else {
        track_fingerprint_bytes(ts, k - 1) + vstd::utf8::encode_utf8(ts[k - 1].fingerprint)
    }
}

/// The UTF-8 bytes of the hashes of the first `k` assets, concatenated.
pub open spec fn asset_hash_bytes(a: Seq<AssetView>, k: int) -> Seq<u8>
    decreases k,
{
    if k <= 0 {
        Seq::empty()
    } else {
        asset_hash_bytes(a, k - 1) + vstd::utf8::encode_utf8(a[k - 1].hash)
    }
}

/// The semantic index of a project document. `fallback_name` names the
/// project where the document does not; `table` holds what the texts that
/// may hold numbers read as.
pub open spec fn index_of_document(
    ns: Seq<XmlNodeView>,
    table: Seq<NumberEntry>,
    fallback_name: Seq<char>,
    snapshot_id: Seq<char>,
) -> IndexView {
    let name = or_else(project_name_of(ns), fallback_name);
    let tracks = tracks_upto(ns, table, ns.len() as int);
    let assets = assets_upto(ns, ns.len() as int);
    IndexView {
        snapshot_id,
        project_name: name,
        tempo: opt_number_view(tempo_of(table, ns)),
        time_signature: time_signature_of(ns),
        tracks,
        assets,
        fingerprint: blake3_hex_of(
            vstd::utf8::encode_utf8(snapshot_id) + vstd::utf8::encode_utf8(name)
                + track_fingerprint_bytes(tracks, tracks.len() as int) + asset_hash_bytes(
                assets,
                assets.len() as int,
            ),
        ),
    }
}

fn append_bytes(v: &mut Vec<u8>, s: &str)
    ensures
        final(v)@ == old(v)@ + vstd::utf8::encode_utf8(s@),
{
    let b = s.as_bytes();
    let ghost start = v@;
    let mut i: usize = 0;
    while i < b.len()
        invariant
            i <= b.len(),
            v@ == start + b@.take(i as int),
        decreases b.len() - i,
    {
        v.push(b[i]);
        assert(v@ =~= start + b@.take(i + 1));
        i = i + 1;
    }
    assert(b@.take(b.len() as int) =~= b@);
}

/// The semantic index of a parsed project document.
pub fn build_semantic_index(
    doc: &XmlDoc,
    numbers: &Vec<NumberEntry>,
    fallback_name: &str,
    snapshot_id: &str,
) -> (r: SemanticIndex)
    ensures
        r@ == index_of_document(doc@, numbers@, fallback_name@, snapshot_id@),
{
    let nodes = doc.nodes();
    let project_name = match extract_project_name(doc) {
        Some(v) => v,
        None => String::from_str(fallback_name),
    };
    let tempo = extract_tempo(numbers, doc);
    let time_signature = extract_time_signature(doc);
    let mut tracks: Vec<TrackIndex> = Vec::new();
    let mut assets: Vec<AssetIndex> = Vec::new();
    let mut k: usize = 0;
    let mut rank: usize = 0;
    while k < nodes.len()
        invariant
            k <= nodes.len(),
            well_formed_nodes(node_views(nodes@)),
            rank == elements_between(node_views(nodes@), 0, k as int),
            rank <= k,
            tracks@.map_values(|t: TrackIndex| t@) == tracks_upto(node_views(nodes@), numbers@, k as int),
            assets@.map_values(|a: AssetIndex| a@) == assets_upto(node_views(nodes@), k as int),
        decreases nodes.len() - k,
    {
        let n = &nodes[k];
        if n.element {
            let tag = to_ascii_lowercase(n.tag.as_str());
            if is_track_tag(tag.as_str()) {
                let t = track_at(nodes, numbers, k, rank);
                let ghost before = tracks@.map_values(|t: TrackIndex| t@);
                tracks.push(t);
                assert(tracks@.map_values(|t: TrackIndex| t@) =~= before.push(t@));
            }
            if is_asset_tag(tag.as_str()) {
                if let Some(a) = asset_at(n) {
                    let ghost before = assets@.map_values(|a: AssetIndex| a@);
                    assets.push(a);
                    assert(assets@.map_values(|a: AssetIndex| a@) =~= before.push(a@));
                }
            }
        }
        proof {
            lemma_elements_step(node_views(nodes@), 0, k as int);
        }
        assert(tracks@.map_values(|t: TrackIndex| t@) =~= tracks_upto(node_views(nodes@), numbers@, k + 1));
        assert(assets@.map_values(|a: AssetIndex| a@) =~= assets_upto(node_views(nodes@), k + 1));
        if n.element {
            rank = rank + 1;
        }
        k = k + 1;
    }
    let ghost tv = tracks@.map_values(|t: TrackIndex| t@);
    let ghost av = assets@.map_values(|a: AssetIndex| a@);
    let mut data: Vec<u8> = Vec::new();
    append_bytes(&mut data, snapshot_id);
    append_bytes(&mut data, project_name.as_str());
    let ghost head = data@;
    let mut i: usize = 0;
    while i < tracks.len()
        invariant
            i <= tracks.len(),
            tv == tracks@.map_values(|t: TrackIndex| t@),
            data@ == head + track_fingerprint_bytes(tv, i as int),
        decreases tracks.len() - i,
    {
        append_bytes(&mut data, tracks[i].fingerprint.as_str());
        assert(data@ =~= head + track_fingerprint_bytes(tv, i + 1));
        i = i + 1;
    }
    let ghost mid = data@;
    let mut j: usize = 0;
    while j < assets.len()
        invariant
            j <= assets.len(),
            av == assets@.map_values(|a: AssetIndex| a@),
            data@ == mid + asset_hash_bytes(av, j as int),
        decreases assets.len() - j,
    {
        append_bytes(&mut data, assets[j].hash.as_str());
        assert(data@ =~= mid + asset_hash_bytes(av, j + 1));
        j = j + 1;
    }
    let fingerprint = blake3_hex(data.as_slice());
    let r = SemanticIndex {
        snapshot_id: String::from_str(snapshot_id),
        project_name,
        tempo,
        time_signature,
        tracks,
        assets,
        fingerprint,
    };
    assert(data@ =~= vstd::utf8::encode_utf8(snapshot_id@) + vstd::utf8::encode_utf8(
        r.project_name@,
    ) + track_fingerprint_bytes(tv, tv.len() as int) + asset_hash_bytes(av, av.len() as int));
    r
}

/// Building an index is determined by the text of the project document: two
/// documents parsed from the same text hold the same nodes, name the same
/// texts to be read as numbers, and, with the same number table, fallback
/// name and snapshot identifier, give the same index (the same tracks, clips,
/// devices and assets, with the same ids and fingerprints, in the same order).
pub proof fn lemma_index_determined_by_text(
    raw: Seq<char>,
    d1: XmlDoc,
    d2: XmlDoc,
    table: Seq<NumberEntry>,
    fallback_name: Seq<char>,
    snapshot_id: Seq<char>,
)
    requires
        xml_document(raw) == Some(d1@),
        xml_document(raw) == Some(d2@),
    ensures
        d1@ == d2@,
        number_texts_upto(d1@, d1@.len() as int) == number_texts_upto(d2@, d2@.len() as int),
        index_of_document(d1@, table, fallback_name, snapshot_id) == index_of_document(
            d2@,
            table,
            fallback_name,
            snapshot_id,
        ),
{
}

// ---------------------------------------------------------------------------
// Clip positions and lengths.
// ---------------------------------------------------------------------------

proof fn lemma_first_attr_at<T>(attrs: Seq<XmlAttrView>, f: spec_fn(XmlAttrView) -> Option<T>, i: int, k: int)
    requires
        0 <= i <= k < attrs.len(),
        f(attrs[k]) is Some,
        forall|m: int| i <= m < k ==> f(#[trigger] attrs[m]) is None,
    ensures
        first_attr(attrs, f, i) == f(attrs[k]),
    decreases k - i,
{
    if i < k {
        lemma_first_attr_at(attrs, f, i + 1, k);
    }
}

proof fn lemma_first_attr_none<T>(attrs: Seq<XmlAttrView>, f: spec_fn(XmlAttrView) -> Option<T>, i: int)
    requires
        0 <= i,
        forall|m: int| i <= m < attrs.len() ==> f(#[trigger] attrs[m]) is None,
    ensures
        first_attr(attrs, f, i) is None,
    decreases attrs.len() - i,
{
    if i < attrs.len() {
        lemma_first_attr_none(attrs, f, i + 1);
    }
}

/// Attribute `a` gives a clip's position: it is called `start`, `position` or
/// `beat`, in any case.
pub open spec fn names_position(a: XmlAttrView) -> bool {
    lower(a.name) == lower("start"@) || lower(a.name) == lower("position"@) || lower(a.name) == lower(
        "beat"@,
    )
}

/// Attribute `a` gives a clip's length: it is called `length`, `duration` or
/// `len`, in any case.
pub open spec fn names_length(a: XmlAttrView) -> bool {
    lower(a.name) == lower("length"@) || lower(a.name) == lower("duration"@) || lower(a.name) == lower(
        "len"@,
    )
}

/// A clip element's start is the number read from its first attribute called
/// `start`, `position` or `beat` (in any case) whose trimmed value reads as a
/// number; where no such attribute reads as a number, the start is 0. The
/// same holds of its length and the attributes `length`, `duration`, `len`.
pub proof fn lemma_clip_start_and_length_read(
    ns: Seq<XmlNodeView>,
    table: Seq<NumberEntry>,
    j: int,
    index: nat,
)
    requires
        0 <= j < ns.len(),
    ensures
        forall|k: int|
            #![trigger ns[j].attrs[k]]
            0 <= k < ns[j].attrs.len() && names_position(ns[j].attrs[k]) && number_of(
                table,
                trimmed(ns[j].attrs[k].value),
            ) is Some && (forall|m: int|
                0 <= m < k && names_position(#[trigger] ns[j].attrs[m]) ==> number_of(
                    table,
                    trimmed(ns[j].attrs[m].value),
                ) is None) ==> clip_view(ns, table, j, index).start == number_of(
                table,
                trimmed(ns[j].attrs[k].value),
            ).unwrap()@,
        (forall|m: int|
            0 <= m < ns[j].attrs.len() && names_position(#[trigger] ns[j].attrs[m]) ==> number_of(
                table,
                trimmed(ns[j].attrs[m].value),
            ) is None) ==> clip_view(ns, table, j, index).start == zero_number(),
        forall|k: int|
            #![trigger ns[j].attrs[k]]
            0 <= k < ns[j].attrs.len() && names_length(ns[j].attrs[k]) && number_of(
                table,
                trimmed(ns[j].attrs[k].value),
            ) is Some && (forall|m: int|
                0 <= m < k && names_length(#[trigger] ns[j].attrs[m]) ==> number_of(
                    table,
                    trimmed(ns[j].attrs[m].value),
                ) is None) ==> clip_view(ns, table, j, index).length == number_of(
                table,
                trimmed(ns[j].attrs[k].value),
            ).unwrap()@,
        (forall|m: int|
            0 <= m < ns[j].attrs.len() && names_length(#[trigger] ns[j].attrs[m]) ==> number_of(
                table,
                trimmed(ns[j].attrs[m].value),
            ) is None) ==> clip_view(ns, table, j, index).length == zero_number(),
{
    let attrs = ns[j].attrs;
    let fs = |a: XmlAttrView|
        if lower(a.name) == lower("start"@) || lower(a.name) == lower("position"@) || lower(a.name)
            == lower("beat"@) {
            number_of(table, trimmed(a.value))
        } else {
            None
        };
    let fl = |a: XmlAttrView|
        if lower(a.name) == lower("length"@) || lower(a.name) == lower("duration"@) || lower(a.name)
            == lower("len"@) {
            number_of(table, trimmed(a.value))
        } else {
            None
        };
    assert(number_attr(table, ns[j], "start"@, "position"@, "beat"@) == first_attr(attrs, fs, 0));
    assert(number_attr(table, ns[j], "length"@, "duration"@, "len"@) == first_attr(attrs, fl, 0));
    assert forall|k: int|
        #![trigger ns[j].attrs[k]]
        0 <= k < ns[j].attrs.len() && names_position(ns[j].attrs[k]) && number_of(
            table,
            trimmed(ns[j].attrs[k].value),
        ) is Some && (forall|m: int|
            0 <= m < k && names_position(#[trigger] ns[j].attrs[m]) ==> number_of(
                table,
                trimmed(ns[j].attrs[m].value),
            ) is None) implies clip_view(ns, table, j, index).start == number_of(
        table,
        trimmed(ns[j].attrs[k].value),
    ).unwrap()@ by {
        assert forall|m: int| 0 <= m < k implies fs(#[trigger] attrs[m]) is None by {
            if names_position(attrs[m]) {
                assert(number_of(table, trimmed(ns[j].attrs[m].value)) is None);
            }
        }
        lemma_first_attr_at(attrs, fs, 0, k);
    }
    if forall|m: int|
        0 <= m < ns[j].attrs.len() && names_position(#[trigger] ns[j].attrs[m]) ==> number_of(
            table,
            trimmed(ns[j].attrs[m].value),
        ) is None {
        assert forall|m: int| 0 <= m < attrs.len() implies fs(#[trigger] attrs[m]) is None by {
            if names_position(attrs[m]) {
                assert(number_of(table, trimmed(ns[j].attrs[m].value)) is None);
            }
        }
        lemma_first_attr_none(attrs, fs, 0);
    }
    assert forall|k: int|
        #![trigger ns[j].attrs[k]]
        0 <= k < ns[j].attrs.len() && names_length(ns[j].attrs[k]) && number_of(
            table,
            trimmed(ns[j].attrs[k].value),
        ) is Some && (forall|m: int|
            0 <= m < k && names_length(#[trigger] ns[j].attrs[m]) ==> number_of(
                table,
                trimmed(ns[j].attrs[m].value),
            ) is None) implies clip_view(ns, table, j, index).length == number_of(
        table,
        trimmed(ns[j].attrs[k].value),
    ).unwrap()@ by {
        assert forall|m: int| 0 <= m < k implies fl(#[trigger] attrs[m]) is None by {
            if names_length(attrs[m]) {
                assert(number_of(table, trimmed(ns[j].attrs[m].value)) is None);
            }
        }
        lemma_first_attr_at(attrs, fl, 0, k);
    }
    if forall|m: int|
        0 <= m < ns[j].attrs.len() && names_length(#[trigger] ns[j].attrs[m]) ==> number_of(
            table,
            trimmed(ns[j].attrs[m].value),
        ) is None {
        assert forall|m: int| 0 <= m < attrs.len() implies fl(#[trigger] attrs[m]) is None by {
            if names_length(attrs[m]) {
                assert(number_of(table, trimmed(ns[j].attrs[m].value)) is None);
            }
        }
        lemma_first_attr_none(attrs, fl, 0);
    }
}

/// Every clip element inside a track element's subtree is among the track's
/// clips, as `clip_view` describes it.
pub proof fn lemma_clip_of_track(ns: Seq<XmlNodeView>, table: Seq<NumberEntry>, i: int, m: int, j: int)
    requires
        i <= j < i + m,
        ns[j].element,
        is_clip_tag_spec(lower(ns[j].tag)),
    ensures
        clips_in(ns, table, i, m).contains(clip_view(ns, table, j, elements_between(ns, i, j))),
    decreases m,
{
    let c = clip_view(ns, table, j, elements_between(ns, i, j));
    if j == i + m - 1 {
        let prev = clips_in(ns, table, i, m - 1);
        assert(clips_in(ns, table, i, m)[prev.len() as int] == c);
    } else {
        lemma_clip_of_track(ns, table, i, m - 1, j);
        let prev = clips_in(ns, table, i, m - 1);
        let k = choose|k: int| 0 <= k < prev.len() && prev[k] == c;
        assert(clips_in(ns, table, i, m)[k] == c);
    }
}

} // verus!
