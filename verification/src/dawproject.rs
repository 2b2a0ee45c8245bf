//! Reading exported DAW projects: project metadata and the semantic index of
//! a project, from the XML documents inside a `.dawproject` archive.
//!
//! Numbers (tempo, clip positions) are read by the caller: the library names
//! the texts that may hold numbers, and takes back what each of them parsed to.

use vstd::prelude::*;
use crate::model::{NumberValue, NumberView, opt_number_view, opt_view};
use crate::text::{eq_ignore_ascii_case, lower, occurs_in, to_ascii_lowercase, contains, trim, trimmed};
use crate::xml::{XmlAttrView, XmlNode, XmlNodeView, node_views, parse_xml, well_formed_nodes};

verus! {

/// The project metadata shown before a project is indexed.
pub struct DawprojectInfo {
    pub project_name: String,
    pub tempo: Option<NumberValue>,
    pub time_signature: Option<String>,
    pub application_name: Option<String>,
    pub application_version: Option<String>,
}

/// The raw text of a project document.
pub struct XmlTree {
    pub raw_xml: String,
}

pub enum DawprojectError {
    Xml(roxmltree::Error),
    MissingFile(String),
}

/// A text that may hold a number, and what `f64::from_str` made of it.
pub struct NumberEntry {
    pub text: String,
    pub value: Option<NumberValue>,
}

/// The number read from text `t`: the value of the first entry for `t`, and
/// none where the table has no entry for it.
pub open spec fn number_of(table: Seq<NumberEntry>, t: Seq<char>) -> Option<NumberValue>
    decreases table.len(),
{
    if table.len() == 0 {
        None
    } else if table[0].text@ == t {
        table[0].value
    } else {
        number_of(table.drop_first(), t)
    }
}

pub fn clone_number(n: &NumberValue) -> (r: NumberValue)
    ensures
        r == *n,
{
    NumberValue { bits: n.bits, text: n.text.clone() }
}

pub fn lookup_number(table: &Vec<NumberEntry>, t: &str) -> (r: Option<NumberValue>)
    ensures
        r == number_of(table@, t@),
{
    let key = String::from_str(t);
    let mut k: usize = 0;
    assert(table@.subrange(0, table.len() as int) =~= table@);
    while k < table.len()
        invariant
            k <= table.len(),
            key@ == t@,
            number_of(table@, t@) == number_of(table@.subrange(k as int, table.len() as int), t@),
        decreases table.len() - k,
    {
        let ghost rest = table@.subrange(k as int, table.len() as int);
        assert(rest.drop_first() =~= table@.subrange(k + 1, table.len() as int));
        if table[k].text == key {
            return match &table[k].value {
                Some(v) => Some(clone_number(v)),
                None => None,
            };
        }
        k = k + 1;
    }
    None
}

/// A parsed XML document.
pub struct XmlDoc {
    nodes: Vec<XmlNode>,
}

impl View for XmlDoc {
    type V = Seq<XmlNodeView>;

    closed spec fn view(&self) -> Seq<XmlNodeView> {
        node_views(self.nodes@)
    }
}

impl XmlDoc {
    #[verifier::type_invariant]
    closed spec fn wf(self) -> bool {
        well_formed_nodes(node_views(self.nodes@))
    }

    /// The nodes of the document, in document order.
    pub fn nodes(&self) -> (r: &Vec<XmlNode>)
        ensures
            node_views(r@) == self@,
            well_formed_nodes(self@),
    {
        proof {
            use_type_invariant(self);
        }
        &self.nodes
    }
}

/// The document roxmltree parses from `raw`.
pub fn parse_document(raw: &str) -> (r: Result<XmlDoc, DawprojectError>)
    ensures
        match r {
            Ok(doc) => crate::xml::xml_document(raw@) == Some(doc@),
            Err(e) => crate::xml::xml_document(raw@) is None && e is Xml,
        },
{
    match parse_xml(raw) {
        Ok(nodes) => Ok(XmlDoc { nodes }),
        Err(e) => Err(DawprojectError::Xml(e)),
    }
}

// ---------------------------------------------------------------------------
// Searching attributes and elements.
// ---------------------------------------------------------------------------

/// The first answer of `f` among the attributes from `k` on.
pub open spec fn first_attr<T>(attrs: Seq<XmlAttrView>, f: spec_fn(XmlAttrView) -> Option<T>, k: int) -> Option<
    T,
>
    decreases attrs.len() - k,
{
    if k < 0 || k >= attrs.len() {
        None
    } else {
        match f(attrs[k]) {
            Some(v) => Some(v),
            None => first_attr(attrs, f, k + 1),
        }
    }
}

/// The first answer of `f` among the elements of the document from node `k` on.
pub open spec fn first_element<T>(ns: Seq<XmlNodeView>, f: spec_fn(XmlNodeView) -> Option<T>, k: int) -> Option<
    T,
>
    decreases ns.len() - k,
{
    if k < 0 || k >= ns.len() {
        None
    } else if ns[k].element {
        match f(ns[k]) {
            Some(v) => Some(v),
            None => first_element(ns, f, k + 1),
        }
    } else {
        first_element(ns, f, k + 1)
    }
}

/// `Node::attribute(name)`: the value of the first attribute without
/// namespace whose local name is `name`.
pub open spec fn attribute(n: XmlNodeView, name: Seq<char>) -> Option<Seq<char>> {
    first_attr(
        n.attrs,
        |a: XmlAttrView|
            if a.namespace is None && a.name == name {
                Some(a.value)
            } else {
                None
            },
        0,
    )
}

pub fn get_attribute(n: &XmlNode, name: &str) -> (r: Option<String>)
    ensures
        opt_view(r) == attribute(n@, name@),
{
    let ghost f = |a: XmlAttrView|
        if a.namespace is None && a.name == name@ {
            Some(a.value)
        } else {
            None
        };
    let key = String::from_str(name);
    let mut k: usize = 0;
    while k < n.attrs.len()
        invariant
            k <= n.attrs.len(),
            key@ == name@,
            f == (|a: XmlAttrView|
                if a.namespace is None && a.name == name@ {
                    Some(a.value)
                } else {
                    None
                }),
            first_attr(n@.attrs, f, 0) == first_attr(n@.attrs, f, k as int),
        decreases n.attrs.len() - k,
    {
        let a = &n.attrs[k];
        if a.namespace.is_none() && a.name == key {
            return Some(a.value.clone());
        }
        k = k + 1;
    }
    None
}

/// A node's text, or the empty text where it has none.
pub open spec fn text_or_empty(n: XmlNodeView) -> Seq<char> {
    match n.text {
        Some(t) => t,
        None => Seq::empty(),
    }
}

/// An attribute called `name` (in any case) with a non-blank value gives
/// the project name.
pub open spec fn name_from_attr(a: XmlAttrView) -> Option<Seq<char>> {
    if lower(a.name) == lower("name"@) && trimmed(a.value).len() > 0 {
        Some(trimmed(a.value))
    } else {
        None
    }
}

/// The project name an element carries: from its attributes, else from the
/// text of an element called `name`.
pub open spec fn name_in_node(n: XmlNodeView) -> Option<Seq<char>> {
    match first_attr(n.attrs, |a: XmlAttrView| name_from_attr(a), 0) {
        Some(v) => Some(v),
        None => if lower(n.tag) == lower("name"@) && trimmed(text_or_empty(n)).len() > 0 {
            Some(trimmed(text_or_empty(n)))
        } else {
            None
        },
    }
}

/// The first project name in the document.
pub open spec fn project_name_of(ns: Seq<XmlNodeView>) -> Option<Seq<char>> {
    first_element(ns, |n: XmlNodeView| name_in_node(n), 0)
}

fn name_in(n: &XmlNode) -> (r: Option<String>)
    ensures
        opt_view(r) == name_in_node(n@),
{
    let ghost f = |a: XmlAttrView| name_from_attr(a);
    let mut k: usize = 0;
    while k < n.attrs.len()
        invariant
            k <= n.attrs.len(),
            f == (|a: XmlAttrView| name_from_attr(a)),
            first_attr(n@.attrs, f, 0) == first_attr(n@.attrs, f, k as int),
        decreases n.attrs.len() - k,
    {
        let a = &n.attrs[k];
        if eq_ignore_ascii_case(a.name.as_str(), "name") {
            let v = trim(a.value.as_str());
            if !v.is_empty() {
                return Some(String::from_str(v));
            }
        }
        k = k + 1;
    }
    if eq_ignore_ascii_case(n.tag.as_str(), "name") {
        let text = match &n.text {
            Some(t) => t.as_str(),
            None => "",
        };
        proof {
            reveal_strlit("");
        }
        let v = trim(text);
        if !v.is_empty() {
            return Some(String::from_str(v));
        }
    }
    None
}

/// The project name a document carries.
pub fn extract_project_name(doc: &XmlDoc) -> (r: Option<String>)
    ensures
        opt_view(r) == project_name_of(doc@),
{
    let ghost f = |n: XmlNodeView| name_in_node(n);
    let mut k: usize = 0;
    while k < doc.nodes.len()
        invariant
            k <= doc.nodes.len(),
            f == (|n: XmlNodeView| name_in_node(n)),
            first_element(doc@, f, 0) == first_element(doc@, f, k as int),
        decreases doc.nodes.len() - k,
    {
        let n = &doc.nodes[k];
        if n.element {
            let found = name_in(n);
            if found.is_some() {
                return found;
            }
        }
        k = k + 1;
    }
    None
}

/// An attribute called `timesignature` or `time_signature` (in any case)
/// with a non-blank value gives the time signature.
pub open spec fn time_signature_from_attr(a: XmlAttrView) -> Option<Seq<char>> {
    if (lower(a.name) == lower("timesignature"@) || lower(a.name) == lower("time_signature"@))
        && trimmed(a.value).len() > 0 {
        Some(trimmed(a.value))
    } else {
        None
    }
}

pub open spec fn time_signature_in_node(n: XmlNodeView) -> Option<Seq<char>> {
    first_attr(n.attrs, |a: XmlAttrView| time_signature_from_attr(a), 0)
}

pub open spec fn time_signature_of(ns: Seq<XmlNodeView>) -> Option<Seq<char>> {
    first_element(ns, |n: XmlNodeView| time_signature_in_node(n), 0)
}

fn time_signature_in(n: &XmlNode) -> (r: Option<String>)
    ensures
        opt_view(r) == time_signature_in_node(n@),
{
    let ghost f = |a: XmlAttrView| time_signature_from_attr(a);
    let mut k: usize = 0;
    while k < n.attrs.len()
        invariant
            k <= n.attrs.len(),
            f == (|a: XmlAttrView| time_signature_from_attr(a)),
            first_attr(n@.attrs, f, 0) == first_attr(n@.attrs, f, k as int),
        decreases n.attrs.len() - k,
    {
        let a = &n.attrs[k];
        if eq_ignore_ascii_case(a.name.as_str(), "timesignature") || eq_ignore_ascii_case(
            a.name.as_str(),
            "time_signature",
        ) {
            let v = trim(a.value.as_str());
            if !v.is_empty() {
                return Some(String::from_str(v));
            }
        }
        k = k + 1;
    }
    None
}

/// The time signature a document carries.
pub fn extract_time_signature(doc: &XmlDoc) -> (r: Option<String>)
    ensures
        opt_view(r) == time_signature_of(doc@),
{
    let ghost f = |n: XmlNodeView| time_signature_in_node(n);
    let mut k: usize = 0;
    while k < doc.nodes.len()
        invariant
            k <= doc.nodes.len(),
            f == (|n: XmlNodeView| time_signature_in_node(n)),
            first_element(doc@, f, 0) == first_element(doc@, f, k as int),
        decreases doc.nodes.len() - k,
    {
        let n = &doc.nodes[k];
        if n.element {
            let found = time_signature_in(n);
            if found.is_some() {
                return found;
            }
        }
        k = k + 1;
    }
    None
}

/// An attribute called `tempo` or `bpm` (in any case) whose value reads as
/// a number gives the tempo.
pub open spec fn tempo_from_attr(table: Seq<NumberEntry>, a: XmlAttrView) -> Option<NumberValue> {
    if lower(a.name) == lower("tempo"@) || lower(a.name) == lower("bpm"@) {
        number_of(table, trimmed(a.value))
    } else {
        None
    }
}

/// The tempo an element carries: the text of a `tempo` element that reads
/// as a number, else its first tempo attribute.
pub open spec fn tempo_from_text(table: Seq<NumberEntry>, n: XmlNodeView) -> Option<NumberValue> {
    if lower(n.tag) == lower("tempo"@) {
        match n.text {
            Some(t) => number_of(table, trimmed(t)),
            None => None,
        }
    } else {
        None
    }
}

pub open spec fn tempo_in_node(table: Seq<NumberEntry>, n: XmlNodeView) -> Option<NumberValue> {
    match tempo_from_text(table, n) {
        Some(v) => Some(v),
        None => first_attr(n.attrs, |a: XmlAttrView| tempo_from_attr(table, a), 0),
    }
}

pub open spec fn tempo_of(table: Seq<NumberEntry>, ns: Seq<XmlNodeView>) -> Option<NumberValue> {
    first_element(ns, |n: XmlNodeView| tempo_in_node(table, n), 0)
}

fn tempo_in(table: &Vec<NumberEntry>, n: &XmlNode) -> (r: Option<NumberValue>)
    ensures
        r == tempo_in_node(table@, n@),
{
    if eq_ignore_ascii_case(n.tag.as_str(), "tempo") {
        if let Some(t) = &n.text {
            let v = lookup_number(table, trim(t.as_str()));
            if v.is_some() {
                return v;
            }
        }
    }
    assert(tempo_from_text(table@, n@) is None);
    let ghost f = |a: XmlAttrView| tempo_from_attr(table@, a);
    let mut k: usize = 0;
    while k < n.attrs.len()
        invariant
            k <= n.attrs.len(),
            tempo_from_text(table@, n@) is None,
            f == (|a: XmlAttrView| tempo_from_attr(table@, a)),
            first_attr(n@.attrs, f, 0) == first_attr(n@.attrs, f, k as int),
        decreases n.attrs.len() - k,
    {
        let a = &n.attrs[k];
        if eq_ignore_ascii_case(a.name.as_str(), "tempo") || eq_ignore_ascii_case(
            a.name.as_str(),
            "bpm",
        ) {
            let v = lookup_number(table, trim(a.value.as_str()));
            if v.is_some() {
                return v;
            }
        }
        k = k + 1;
    }
    None
}

/// The tempo a document carries.
pub fn extract_tempo(table: &Vec<NumberEntry>, doc: &XmlDoc) -> (r: Option<NumberValue>)
    ensures
        r == tempo_of(table@, doc@),
{
    let ghost f = |n: XmlNodeView| tempo_in_node(table@, n);
    let mut k: usize = 0;
    while k < doc.nodes.len()
        invariant
            k <= doc.nodes.len(),
            f == (|n: XmlNodeView| tempo_in_node(table@, n)),
            first_element(doc@, f, 0) == first_element(doc@, f, k as int),
        decreases doc.nodes.len() - k,
    {
        let n = &doc.nodes[k];
        if n.element {
            let found = tempo_in(table, n);
            if found.is_some() {
                return found;
            }
        }
        k = k + 1;
    }
    None
}

// ---------------------------------------------------------------------------
// Project metadata.
// ---------------------------------------------------------------------------

pub struct InfoView {
    pub project_name: Seq<char>,
    pub tempo: Option<NumberView>,
    pub time_signature: Option<Seq<char>>,
    pub application_name: Option<Seq<char>>,
    pub application_version: Option<Seq<char>>,
}

impl View for DawprojectInfo {
    type V = InfoView;

    open spec fn view(&self) -> InfoView {
        InfoView {
            project_name: self.project_name@,
            tempo: opt_number_view(self.tempo),
            time_signature: opt_view(self.time_signature),
            application_name: opt_view(self.application_name),
            application_version: opt_view(self.application_version),
        }
    }
}

/// A (lowercase) tag that names the application: it contains
/// `application`, `app` or `software`.
pub open spec fn is_application_tag(tag: Seq<char>) -> bool {
    occurs_in("application"@, tag) || occurs_in("app"@, tag) || occurs_in("software"@, tag)
}

/// The value of the first attribute, lowercase-named `first` or `second`, of
/// an application element.
pub open spec fn application_attr_in(n: XmlNodeView, first: Seq<char>, second: Seq<char>) -> Option<
    Seq<char>,
> {
    if is_application_tag(lower(n.tag)) {
        first_attr(
            n.attrs,
            |a: XmlAttrView|
                if lower(a.name) == first || lower(a.name) == second {
                    Some(a.value)
                } else {
                    None
                },
            0,
        )
    } else {
        None
    }
}

pub open spec fn application_attr_of(ns: Seq<XmlNodeView>, first: Seq<char>, second: Seq<char>) -> Option<
    Seq<char>,
> {
    first_element(ns, |n: XmlNodeView| application_attr_in(n, first, second), 0)
}

fn application_attr(n: &XmlNode, first: &str, second: &str) -> (r: Option<String>)
    ensures
        opt_view(r) == application_attr_in(n@, first@, second@),
{
    let tag = to_ascii_lowercase(n.tag.as_str());
    if !(contains(tag.as_str(), "application") || contains(tag.as_str(), "app") || contains(
        tag.as_str(),
        "software",
    )) {
        return None;
    }
    let f1 = String::from_str(first);
    let f2 = String::from_str(second);
    let ghost f = |a: XmlAttrView|
        if lower(a.name) == first@ || lower(a.name) == second@ {
            Some(a.value)
        } else {
            None
        };
    let mut k: usize = 0;
    while k < n.attrs.len()
        invariant
            k <= n.attrs.len(),
            f1@ == first@,
            f2@ == second@,
            is_application_tag(lower(n@.tag)),
            f == (|a: XmlAttrView|
                if lower(a.name) == first@ || lower(a.name) == second@ {
                    Some(a.value)
                } else {
                    None
                }),
            first_attr(n@.attrs, f, 0) == first_attr(n@.attrs, f, k as int),
        decreases n.attrs.len() - k,
    {
        let a = &n.attrs[k];
        let name = to_ascii_lowercase(a.name.as_str());
        if name == f1 || name == f2 {
            return Some(a.value.clone());
        }
        k = k + 1;
    }
    None
}

/// The first attribute, lowercase-named `first` or `second`, of an element
/// whose lowercase tag names the application.
pub fn find_attr_ci(doc: &XmlDoc, first: &str, second: &str) -> (r: Option<String>)
    ensures
        opt_view(r) == application_attr_of(doc@, first@, second@),
{
    let nodes = doc.nodes();
    let ghost f = |n: XmlNodeView| application_attr_in(n, first@, second@);
    let mut k: usize = 0;
    while k < nodes.len()
        invariant
            k <= nodes.len(),
            f == (|n: XmlNodeView| application_attr_in(n, first@, second@)),
            node_views(nodes@) == doc@,
            first_element(doc@, f, 0) == first_element(doc@, f, k as int),
        decreases nodes.len() - k,
    {
        let n = &nodes[k];
        if n.element {
            let found = application_attr(n, first, second);
            if found.is_some() {
                return found;
            }
        }
        k = k + 1;
    }
    None
}

/// What the metadata document says of a project.
pub open spec fn metadata_info(ns: Seq<XmlNodeView>, table: Seq<NumberEntry>) -> InfoView {
    InfoView {
        project_name: match project_name_of(ns) {
            Some(n) => n,
            None => "Unknown Project"@,
        },
        tempo: opt_number_view(tempo_of(table, ns)),
        time_signature: time_signature_of(ns),
        application_name: application_attr_of(ns, "name"@, "application"@),
        application_version: application_attr_of(ns, "version"@, "appversion"@),
    }
}

/// The project metadata in a parsed metadata document.
pub fn parse_metadata_xml(doc: &XmlDoc, numbers: &Vec<NumberEntry>) -> (info: DawprojectInfo)
    ensures
        info@ == metadata_info(doc@, numbers@),
{
    DawprojectInfo {
        project_name: match extract_project_name(doc) {
            Some(n) => n,
            None => String::from_str("Unknown Project"),
        },
        tempo: extract_tempo(numbers, doc),
        time_signature: extract_time_signature(doc),
        application_name: find_attr_ci(doc, "name", "application"),
        application_version: find_attr_ci(doc, "version", "appversion"),
    }
}

/// What is known of a project from its metadata document (when it could be
/// read) and its project document (when it could be read), named
/// `fallback_name` where neither names it.
pub open spec fn inspected_info(
    metadata: Option<Seq<XmlNodeView>>,
    project: Option<Seq<XmlNodeView>>,
    fallback_name: Seq<char>,
    table: Seq<NumberEntry>,
) -> InfoView {
    let base = match metadata {
        Some(m) => metadata_info(m, table),
        None => InfoView {
            project_name: fallback_name,
            tempo: None,
            time_signature: None,
            application_name: None,
            application_version: None,
        },
    };
    match project {
        None => base,
        Some(p) => InfoView {
            project_name: match project_name_of(p) {
                Some(n) => n,
                None => base.project_name,
            },
            tempo: match base.tempo {
                Some(t) => Some(t),
                None => opt_number_view(tempo_of(table, p)),
            },
            time_signature: match base.time_signature {
                Some(t) => Some(t),
                None => time_signature_of(p),
            },
            application_name: base.application_name,
            application_version: base.application_version,
        },
    }
}

pub open spec fn doc_view(d: Option<&XmlDoc>) -> Option<Seq<XmlNodeView>> {
    match d {
        Some(x) => Some(x@),
        None => None,
    }
}

/// The project metadata of an export: the metadata document's, completed
/// and overridden by what the project document says.
pub fn inspect_dawproject(
    metadata: Option<&XmlDoc>,
    project: Option<&XmlDoc>,
    fallback_name: &str,
    numbers: &Vec<NumberEntry>,
) -> (info: DawprojectInfo)
    ensures
        info@ == inspected_info(doc_view(metadata), doc_view(project), fallback_name@, numbers@),
{
    let mut info = match metadata {
        Some(m) => parse_metadata_xml(m, numbers),
        None => DawprojectInfo {
            project_name: String::from_str(fallback_name),
            tempo: None,
            time_signature: None,
            application_name: None,
            application_version: None,
        },
    };
    if let Some(p) = project {
        let tempo = extract_tempo(numbers, p);
        if let Some(name) = extract_project_name(p) {
            info.project_name = name;
        }
        if info.tempo.is_none() {
            info.tempo = tempo;
        }
        if info.time_signature.is_none() {
            info.time_signature = extract_time_signature(p);
        }
    }
    info
}

// ---------------------------------------------------------------------------
// Texts that may hold numbers.
// ---------------------------------------------------------------------------

/// The texts of one element that may be read as numbers: its trimmed text,
/// if it has one, then the trimmed value of each attribute.
pub open spec fn number_texts_of(n: XmlNodeView) -> Seq<Seq<char>> {
    (match n.text {
        Some(t) => seq![trimmed(t)],
        None => Seq::empty(),
    }) + n.attrs.map_values(|a: XmlAttrView| trimmed(a.value))
}

pub open spec fn number_texts_upto(ns: Seq<XmlNodeView>, k: int) -> Seq<Seq<char>>
    decreases k,
{
    if k <= 0 {
        Seq::empty()
    } else {
        number_texts_upto(ns, k - 1) + if ns[k - 1].element {
            number_texts_of(ns[k - 1])
        } else {
            Seq::empty()
        }
    }
}

/// Every text of the document that tempo or clip positions may be read
/// from, in document order; the caller reads each as a number.
pub fn number_candidates(doc: &XmlDoc) -> (r: Vec<String>)
    ensures
        r@.map_values(|s: String| s@) == number_texts_upto(doc@, doc@.len() as int),
{
    let nodes = doc.nodes();
    let mut out: Vec<String> = Vec::new();
    let mut k: usize = 0;
    while k < nodes.len()
        invariant
            k <= nodes.len(),
            node_views(nodes@) == doc@,
            out@.map_values(|s: String| s@) == number_texts_upto(doc@, k as int),
        decreases nodes.len() - k,
    {
        let n = &nodes[k];
        assert(doc@[k as int] == n@);
        let ghost before = out@.map_values(|s: String| s@);
        if n.element {
            if let Some(t) = &n.text {
                out.push(String::from_str(trim(t.as_str())));
            }
            let ghost mid = out@.map_values(|s: String| s@);
            assert(mid =~= before + match n.text {
                Some(t) => seq![trimmed(t@)],
                None => Seq::empty(),
            });
            let mut i: usize = 0;
            while i < n.attrs.len()
                invariant
                    i <= n.attrs.len(),
                    out@.map_values(|s: String| s@) == mid + n@.attrs.map_values(
                        |a: XmlAttrView| trimmed(a.value),
                    ).take(i as int),
                decreases n.attrs.len() - i,
            {
                let v = String::from_str(trim(n.attrs[i].value.as_str()));
                let ghost b2 = out@.map_values(|s: String| s@);
                out.push(v);
                assert(out@.map_values(|s: String| s@) =~= b2.push(v@));
                assert(out@.map_values(|s: String| s@) =~= mid + n@.attrs.map_values(
                    |a: XmlAttrView| trimmed(a.value),
                ).take(i + 1));
                i = i + 1;
            }
            assert(n@.attrs.map_values(|a: XmlAttrView| trimmed(a.value)).take(n.attrs.len() as int)
                =~= n@.attrs.map_values(|a: XmlAttrView| trimmed(a.value)));
        }
        assert(out@.map_values(|s: String| s@) =~= number_texts_upto(doc@, k + 1));
        k = k + 1;
    }
    out
}

} // verus!
