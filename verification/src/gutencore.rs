//! Reading EPUB metadata: the OPF package document's author and the
//! library's own `rubrica:*` metadata, beside what GutenCore reads.
use vstd::prelude::*;
use crate::pipeline::{read_rubrica_metas, rubrica_metas, CoreMetadata};
use crate::text::{chars_of, extend_str, string_of, trim, trim_str};
use crate::xml::{is_tag, has_tag, node_views, opt_view, parse_xml, xml_document, XmlNode, XmlNodeView};

verus! {

/// The metadata of an EPUB: Dublin Core fields and the library's own.
#[derive(Debug, Clone)]
pub struct EpubMetadata {
    pub title: String,
    pub author: String,
    pub language: String,
    pub identifier: String,
    /// `rubrica:series`
    pub series: Option<String>,
    /// `rubrica:progress`
    pub progress: Option<String>,
}

/// Reads zipped EPUB files with GutenCore.
pub struct GutenAdapter;

/// The Dublin Core namespace.
pub open spec fn dc_ns() -> Seq<char> {
    "http://purl.org/dc/elements/1.1/"@
}

/// The first node that is the element `name` of namespace `ns`.
pub open spec fn first_with_tag(nodes: Seq<XmlNodeView>, ns: Seq<char>, name: Seq<char>) -> Option<XmlNodeView>
    decreases nodes.len(),
{
    if nodes.len() == 0 {
        None
    } else if has_tag(nodes[0], ns, name) {
        Some(nodes[0])
    } else {
        first_with_tag(nodes.drop_first(), ns, name)
    }
}

/// The author of an OPF document: the text of its first `dc:creator`, or
/// `Unknown` when there is none or it has no text; trimmed.
pub open spec fn creator_of(nodes: Seq<XmlNodeView>) -> Seq<char> {
    trim(
        match first_with_tag(nodes, dc_ns(), "creator"@) {
            Some(n) => match n.text {
                Some(t) => t,
                None => "Unknown"@,
            },
            None => "Unknown"@,
        },
    )
}

/// The author of an OPF document's nodes.
fn creator(nodes: &Vec<XmlNode>) -> (r: String)
    ensures
        r@ == creator_of(node_views(nodes@)),
{
    let ghost ns = node_views(nodes@);
    let mut i: usize = 0;
    assert(ns.skip(0) =~= ns);
    while i < nodes.len()
        invariant
            i <= nodes.len(),
            ns == node_views(nodes@),
            first_with_tag(ns.skip(i as int), dc_ns(), "creator"@) == first_with_tag(ns, dc_ns(), "creator"@),
        decreases nodes.len() - i,
    {
        proof {
            assert(ns.skip(i as int)[0] == nodes@[i as int]@);
            assert(ns.skip(i as int).drop_first() =~= ns.skip(i + 1));
        }
        if is_tag(&nodes[i], "http://purl.org/dc/elements/1.1/", "creator") {
            return match &nodes[i].text {
                Some(t) => trim_str(t.as_str()),
                None => trim_str("Unknown"),
            };
        }
        i += 1;
    }
    assert(ns.skip(nodes.len() as int).len() == 0);
    trim_str("Unknown")
}

impl GutenAdapter {
    /// The metadata of an EPUB from its OPF document and what GutenCore
    /// read: an error when the OPF does not parse (`XML parse error: …`) or
    /// GutenCore read no metadata; otherwise GutenCore's title, language
    /// and identifier, the OPF's author, and its `rubrica:series` and
    /// `rubrica:progress` (the last of each).
    pub fn epub_metadata(opf_content: &str, core: Option<&CoreMetadata>) -> (r: Result<EpubMetadata, String>)
        ensures
            match xml_document(opf_content@) {
                Err(e) => r matches Err(m) && m@ == "XML parse error: "@ + e,
                Ok(nodes) => match core {
                    None => r matches Err(m) && m@ == "No metadata loaded by GutenCore"@,
                    Some(c) => r matches Ok(md) && {
                        &&& md.title@ == c.title@
                        &&& md.author@ == creator_of(nodes)
                        &&& md.language@ == c.language@
                        &&& md.identifier@ == c.identifier@
                        &&& (opt_view(md.series), opt_view(md.progress)) == rubrica_metas(nodes, None, None)
                    },
                },
            },
    {
        let nodes = match parse_xml(opf_content) {
            Ok(ns) => ns,
            Err(e) => {
                let mut m: Vec<char> = Vec::new();
                extend_str(&mut m, "XML parse error: ");
                extend_str(&mut m, e.as_str());
                return Err(string_of(&m));
            },
        };
        let author = creator(&nodes);
        let (series, progress) = read_rubrica_metas(&nodes, None, None);
        match core {
            None => Err("No metadata loaded by GutenCore".to_string()),
            Some(c) => Ok(
                EpubMetadata {
                    title: c.title.clone(),
                    author,
                    language: c.language.clone(),
                    identifier: c.identifier.clone(),
                    series,
                    progress,
                },
            ),
        }
    }

    /// Whether an archive entry is a directory (its name ends with `/`).
    pub fn is_directory_entry(name: &str) -> (b: bool)
        ensures
            b == (name@.len() > 0 && name@.last() == '/'),
    {
        let v = chars_of(name);
        v.len() > 0 && v[v.len() - 1] == '/'
    }
}

} // verus!
