//! XML documents as plain values: the nodes of a document parsed by
//! roxmltree, in document order.

use vstd::prelude::*;

verus! {

#[verifier::external_type_specification]
#[verifier::external_body]
pub struct ExXmlError(roxmltree::Error);

/// One attribute: namespace URI (if any), local name, value.
pub struct XmlAttr {
    pub namespace: Option<String>,
    pub name: String,
    pub value: String,
}

/// One node of a document. `children` are the indices of the node's
/// children, `descendants` is how many nodes the subtree of the node spans
/// (the node included); the subtree is the run of nodes starting at the node.
pub struct XmlNode {
    pub element: bool,
    pub tag: String,
    pub attrs: Vec<XmlAttr>,
    pub text: Option<String>,
    pub children: Vec<usize>,
    pub descendants: usize,
}

pub struct XmlAttrView {
    pub namespace: Option<Seq<char>>,
    pub name: Seq<char>,
    pub value: Seq<char>,
}

pub struct XmlNodeView {
    pub element: bool,
    pub tag: Seq<char>,
    pub attrs: Seq<XmlAttrView>,
    pub text: Option<Seq<char>>,
    pub children: Seq<usize>,
    pub descendants: usize,
}

pub open spec fn attr_view(a: XmlAttr) -> XmlAttrView {
    XmlAttrView {
        namespace: match a.namespace {
            Some(n) => Some(n@),
            None => None,
        },
        name: a.name@,
        value: a.value@,
    }
}

pub open spec fn node_view(n: XmlNode) -> XmlNodeView {
    XmlNodeView {
        element: n.element,
        tag: n.tag@,
        attrs: n.attrs@.map_values(|a: XmlAttr| attr_view(a)),
        text: match n.text {
            Some(t) => Some(t@),
            None => None,
        },
        children: n.children@,
        descendants: n.descendants,
    }
}

impl View for XmlAttr {
    type V = XmlAttrView;

    open spec fn view(&self) -> XmlAttrView {
        attr_view(*self)
    }
}

impl View for XmlNode {
    type V = XmlNodeView;

    open spec fn view(&self) -> XmlNodeView {
        node_view(*self)
    }
}

pub open spec fn node_views(s: Seq<XmlNode>) -> Seq<XmlNodeView> {
    s.map_values(|n: XmlNode| n@)
}

/// The nodes of the document that roxmltree parses from `text`, or `None`
/// where roxmltree rejects the text.
pub uninterp spec fn xml_document(text: Seq<char>) -> Option<Seq<XmlNodeView>>;

/// The shape every roxmltree document has: a root node spanning the whole
/// document, every subtree a non-empty run inside the document, every child
/// index inside the document.
pub open spec fn well_formed_nodes(nodes: Seq<XmlNodeView>) -> bool {
    &&& nodes.len() >= 1
    &&& nodes[0].descendants == nodes.len()
    &&& forall|i: int|
        0 <= i < nodes.len() ==> 1 <= #[trigger] nodes[i].descendants && i + nodes[i].descendants
            <= nodes.len()
    &&& forall|i: int, j: int|
        0 <= i < nodes.len() && 0 <= j < nodes[i].children.len() ==> #[trigger] nodes[i].children[j]
            < nodes.len()
}

/// `roxmltree::Document::parse`, with every node of the document (root,
/// elements, text, comments, instructions; `Document::descendants` order,
/// which is node-id order) converted to a plain node: whether it is an
/// element, its local tag name, its attributes, `Node::text`, the ids of
/// `Node::children`, and the length of `Node::descendants`.
#[verifier::external_body]
pub(crate) fn parse_xml(text: &str) -> (r: Result<Vec<XmlNode>, roxmltree::Error>)
    ensures
        match r {
            Ok(nodes) => xml_document(text@) == Some(node_views(nodes@)) && well_formed_nodes(
                node_views(nodes@),
            ),
            Err(_) => xml_document(text@) is None,
        },
{
    let doc = roxmltree::Document::parse(text)?;
    Ok(doc.descendants().map(|n| XmlNode {
        element: n.is_element(),
        tag: n.tag_name().name().to_string(),
        attrs: n.attributes().map(|a| XmlAttr {
            namespace: a.namespace().map(|s| s.to_string()),
            name: a.name().to_string(),
            value: a.value().to_string(),
        }).collect(),
        text: n.text().map(|t| t.to_string()),
        children: n.children().map(|c| c.id().get_usize()).collect(),
        descendants: n.descendants().len(),
    }).collect())
}

} // verus!
