//! XML documents as read by `roxmltree`: the nodes of a document in
//! document order, as plain values.
use vstd::prelude::*;

verus! {

/// A node of a parsed document: its namespace URI and local name (both
/// empty for nodes that are not elements), its attributes (local name and
/// value, in document order), its text, whether it is a text node, and its
/// level: the nodes on the way from the document node down to it, both
/// counted (the document node is on level 1, the root element on 2).
#[derive(Debug, Clone)]
pub struct XmlNode {
    pub namespace: Option<String>,
    pub name: String,
    pub attributes: Vec<(String, String)>,
    pub text: Option<String>,
    pub is_text: bool,
    pub level: usize,
}

/// The mathematical value of a node.
pub struct XmlNodeView {
    pub namespace: Option<Seq<char>>,
    pub name: Seq<char>,
    pub attributes: Seq<(Seq<char>, Seq<char>)>,
    pub text: Option<Seq<char>>,
    pub is_text: bool,
    pub level: usize,
}

/// The view of an optional string.
pub open spec fn opt_view(o: Option<String>) -> Option<Seq<char>> {
    match o {
        Some(s) => Some(s@),
        None => None,
    }
}

impl View for XmlNode {
    type V = XmlNodeView;

    open spec fn view(&self) -> XmlNodeView {
        XmlNodeView {
            namespace: opt_view(self.namespace),
            name: self.name@,
            attributes: self.attributes@.map_values(|a: (String, String)| (a.0@, a.1@)),
            text: opt_view(self.text),
            is_text: self.is_text,
            level: self.level,
        }
    }
}

/// The views of a sequence of nodes.
pub open spec fn node_views(ns: Seq<XmlNode>) -> Seq<XmlNodeView> {
    ns.map_values(|n: XmlNode| n@)
}

/// What `roxmltree::Document::parse` yields for a text: the nodes of
/// `descendants()` in document order, or the message of the parse error.
pub uninterp spec fn xml_document(text: Seq<char>) -> Result<Seq<XmlNodeView>, Seq<char>>;

/// Parses an XML text with `roxmltree::Document::parse` and lists the
/// nodes that `Document::descendants` yields, in that order, each with the
/// count of `Node::ancestors` (itself included) as its level and
/// `Node::is_text`; a parse error comes back as its message. The contract claims that the outcome is a
/// function of the text alone (`xml_document`), which the crate's parser is.
#[verifier::external_body]
pub(crate) fn parse_xml(text: &str) -> (r: Result<Vec<XmlNode>, String>)
    ensures
        match r {
            Ok(ns) => xml_document(text@) == Ok::<Seq<XmlNodeView>, Seq<char>>(node_views(ns@)),
            Err(e) => xml_document(text@) == Err::<Seq<XmlNodeView>, Seq<char>>(e@),
        },
{
    match roxmltree::Document::parse(text) {
        Ok(doc) => Ok(
            doc.descendants().map(
                |n| XmlNode {
                    namespace: n.tag_name().namespace().map(|s| s.to_string()),
                    name: n.tag_name().name().to_string(),
                    attributes: n.attributes().map(|a| (a.name().to_string(), a.value().to_string())).collect(),
                    text: n.text().map(|s| s.to_string()),
                    is_text: n.is_text(),
                    level: n.ancestors().count(),
                },
            ).collect(),
        ),
        Err(e) => Err(e.to_string()),
    }
}

/// Whether the node is the element `name` of namespace `ns`
/// (`Node::has_tag_name((ns, name))`).
pub open spec fn has_tag(n: XmlNodeView, ns: Seq<char>, name: Seq<char>) -> bool {
    n.namespace == Some(ns) && n.name == name
}

/// The value of the first attribute named `key` (`Node::attribute(key)`).
pub open spec fn attribute_of(attrs: Seq<(Seq<char>, Seq<char>)>, key: Seq<char>) -> Option<Seq<char>>
    decreases attrs.len(),
{
    if attrs.len() == 0 {
        None
    } else if attrs[0].0 == key {
        Some(attrs[0].1)
    } else {
        attribute_of(attrs.drop_first(), key)
    }
}

/// Whether the node is the element `name` of namespace `ns`.
pub fn is_tag(n: &XmlNode, ns: &str, name: &str) -> (b: bool)
    ensures
        b == has_tag(n@, ns@, name@),
{
    let same_name = crate::text::same_chars_str(&crate::text::chars_of(n.name.as_str()), name);
    match &n.namespace {
        Some(u) => same_name && crate::text::same_chars_str(&crate::text::chars_of(u.as_str()), ns),
        None => false,
    }
}

/// The value of the node's first attribute named `key`.
pub fn attribute(n: &XmlNode, key: &str) -> (r: Option<String>)
    ensures
        opt_view(r) == attribute_of(n@.attributes, key@),
{
    let ghost attrs = n@.attributes;
    let mut i: usize = 0;
    assert(attrs.skip(0) =~= attrs);
    while i < n.attributes.len()
        invariant
            i <= n.attributes.len(),
            attrs == n@.attributes,
            attribute_of(attrs.skip(i as int), key@) == attribute_of(attrs, key@),
        decreases n.attributes.len() - i,
    {
        let a = &n.attributes[i];
        proof {
            assert(attrs.skip(i as int)[0] == (a.0@, a.1@));
            assert(attrs.skip(i as int).drop_first() =~= attrs.skip(i + 1));
        }
        if crate::text::same_chars_str(&crate::text::chars_of(a.0.as_str()), key) {
            return Some(a.1.clone());
        }
        i += 1;
    }
    None
}

} // verus!
