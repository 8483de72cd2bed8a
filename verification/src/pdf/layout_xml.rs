//! Reading the layout XML of `pdftohtml -xml`: its pages, their text
//! elements with the font size that each one's font id stands for, and the
//! text of each element, cleaned of characters that XML forbids.
//!
//! The coordinates stay as the attribute texts: the caller measures them in
//! floating point.
use vstd::prelude::*;
use crate::pdf::PdfPipelineError;
use crate::pdf::layout::{parse_u32, parse_u32_chars, sanitize_xml, strip_doctype, without_doctype, xml_sanitized};
use crate::text::{chars_of, extend_str, same_chars_str, string_of, trim, trim_chars};
use crate::xml::{attribute, attribute_of, node_views, parse_xml, xml_document, XmlNode, XmlNodeView};

verus! {

/// A text element of a page: its position and size as written in the XML
/// (empty when absent), its font size, and its text.
#[derive(Debug, Clone)]
pub struct RawText {
    pub top: String,
    pub left: String,
    pub width: String,
    pub height: String,
    pub font_size: u32,
    pub text: String,
}

/// The mathematical value of a text element.
pub struct RawTextView {
    pub top: Seq<char>,
    pub left: Seq<char>,
    pub width: Seq<char>,
    pub height: Seq<char>,
    pub font_size: u32,
    pub text: Seq<char>,
}

impl View for RawText {
    type V = RawTextView;

    open spec fn view(&self) -> RawTextView {
        RawTextView {
            top: self.top@,
            left: self.left@,
            width: self.width@,
            height: self.height@,
            font_size: self.font_size,
            text: self.text@,
        }
    }
}

/// A page of the layout XML: its number (0 when absent or not a number), its
/// size as written (empty when absent) and its text elements in order.
#[derive(Debug, Clone)]
pub struct RawPage {
    pub number: u32,
    pub width: String,
    pub height: String,
    pub texts: Vec<RawText>,
}

/// The mathematical value of a page.
pub struct RawPageView {
    pub number: u32,
    pub width: Seq<char>,
    pub height: Seq<char>,
    pub texts: Seq<RawTextView>,
}

impl View for RawPage {
    type V = RawPageView;

    open spec fn view(&self) -> RawPageView {
        RawPageView {
            number: self.number,
            width: self.width@,
            height: self.height@,
            texts: raw_text_views(self.texts@),
        }
    }
}

/// The views of text elements.
pub open spec fn raw_text_views(ts: Seq<RawText>) -> Seq<RawTextView> {
    ts.map_values(|t: RawText| t@)
}

/// The views of pages.
pub open spec fn raw_page_views(ps: Seq<RawPage>) -> Seq<RawPageView> {
    ps.map_values(|p: RawPage| p@)
}

/// A text element being read: its attributes and the text gathered so far.
pub struct PendingTextView {
    pub top: Seq<char>,
    pub left: Seq<char>,
    pub width: Seq<char>,
    pub height: Seq<char>,
    pub font: Seq<char>,
    pub raw: Seq<char>,
}

/// A page being read.
pub struct OpenPageView {
    pub number: u32,
    pub width: Seq<char>,
    pub height: Seq<char>,
    pub texts: Seq<PendingTextView>,
}

/// The state of the reading: the font definitions met so far (id and size,
/// in document order), the pages read, the page being read, and whether
/// the last child of that page is a text element whose text is gathered.
pub struct LayoutScan {
    pub fonts: Seq<(Seq<char>, u32)>,
    pub pages: Seq<RawPageView>,
    pub page: Option<OpenPageView>,
    pub text_open: bool,
}

/// The value of attribute `key`, empty when the node has none.
pub open spec fn attr_or_empty(n: XmlNodeView, key: Seq<char>) -> Seq<char> {
    match attribute_of(n.attributes, key) {
        Some(v) => v,
        None => Seq::empty(),
    }
}

/// The size of font `id`: that of its last definition, 0 when undefined.
pub open spec fn font_size_of(fonts: Seq<(Seq<char>, u32)>, id: Seq<char>) -> u32
    decreases fonts.len(),
{
    if fonts.len() == 0 {
        0
    } else if fonts.last().0 == id {
        fonts.last().1
    } else {
        font_size_of(fonts.drop_last(), id)
    }
}

/// The text elements of a page as they are kept: each with the size of its
/// font and its text cleaned for XML; those whose text is blank or whose
/// size is 0 are dropped.
pub open spec fn resolved_texts(ts: Seq<PendingTextView>, fonts: Seq<(Seq<char>, u32)>) -> Seq<RawTextView>
    decreases ts.len(),
{
    if ts.len() == 0 {
        Seq::empty()
    } else {
        let rest = resolved_texts(ts.drop_last(), fonts);
        let p = ts.last();
        let size = font_size_of(fonts, p.font);
        let text = xml_sanitized(p.raw);
        if trim(text).len() > 0 && size > 0 {
            rest.push(
                RawTextView {
                    top: p.top,
                    left: p.left,
                    width: p.width,
                    height: p.height,
                    font_size: size,
                    text,
                },
            )
        } else {
            rest
        }
    }
}

/// The pages read, with the page being read closed.
pub open spec fn closed_pages(s: LayoutScan) -> Seq<RawPageView> {
    match s.page {
        Some(p) => s.pages.push(
            RawPageView {
                number: p.number,
                width: p.width,
                height: p.height,
                texts: resolved_texts(p.texts, s.fonts),
            },
        ),
        None => s.pages,
    }
}

/// The text of a node, empty when it has none.
pub open spec fn node_text(n: XmlNodeView) -> Seq<char> {
    match n.text {
        Some(t) => t,
        None => Seq::empty(),
    }
}

/// One node, in document order. A node on level 3 or above ends the page
/// being read; a `page` on level 3 (a child of the root element) starts
/// one. Children of a page: a `fontspec` defines a font (a size that does
/// not parse counts as 0), a `text` starts a text element, anything else
/// ends it. Text nodes below a text element add to its text.
pub open spec fn layout_step(s: LayoutScan, n: XmlNodeView) -> LayoutScan {
    if n.level <= 3 {
        let pages = closed_pages(s);
        if n.level == 3 && n.name == "page"@ {
            LayoutScan {
                fonts: s.fonts,
                pages,
                page: Some(
                    OpenPageView {
                        number: match parse_u32(attr_or_empty(n, "number"@)) {
                            Some(v) => v,
                            None => 0,
                        },
                        width: attr_or_empty(n, "width"@),
                        height: attr_or_empty(n, "height"@),
                        texts: Seq::empty(),
                    },
                ),
                text_open: false,
            }
        } else {
            LayoutScan { fonts: s.fonts, pages, page: None, text_open: false }
        }
    } else {
        match s.page {
            None => s,
            Some(p) => if n.level == 4 {
                if n.name == "fontspec"@ {
                    let size = match parse_u32(attr_or_empty(n, "size"@)) {
                        Some(v) => v,
                        None => 0,
                    };
                    LayoutScan {
                        fonts: s.fonts.push((attr_or_empty(n, "id"@), size)),
                        text_open: false,
                        ..s
                    }
                } else if n.name == "text"@ {
                    let t = PendingTextView {
                        top: attr_or_empty(n, "top"@),
                        left: attr_or_empty(n, "left"@),
                        width: attr_or_empty(n, "width"@),
                        height: attr_or_empty(n, "height"@),
                        font: attr_or_empty(n, "font"@),
                        raw: Seq::empty(),
                    };
                    LayoutScan { page: Some(OpenPageView { texts: p.texts.push(t), ..p }), text_open: true, ..s }
                } else {
                    LayoutScan { text_open: false, ..s }
                }
            } else if s.text_open && n.is_text && p.texts.len() > 0 {
                let last = p.texts.last();
                let grown = PendingTextView { raw: last.raw + node_text(n), ..last };
                LayoutScan {
                    page: Some(OpenPageView { texts: p.texts.drop_last().push(grown), ..p }),
                    ..s
                }
            } else {
                s
            },
        }
    }
}

/// The reading of nodes from a state.
pub open spec fn layout_run(s: LayoutScan, ns: Seq<XmlNodeView>) -> LayoutScan
    decreases ns.len(),
{
    if ns.len() == 0 {
        s
    } else {
        layout_step(layout_run(s, ns.drop_last()), ns.last())
    }
}

/// Nothing read yet.
pub open spec fn layout_start() -> LayoutScan {
    LayoutScan { fonts: Seq::empty(), pages: Seq::empty(), page: None, text_open: false }
}

/// The pages of a parsed layout document, in order.
pub open spec fn raw_pages_of(nodes: Seq<XmlNodeView>) -> Seq<RawPageView> {
    closed_pages(layout_run(layout_start(), nodes))
}

/// A text element being read.
struct PendingText {
    top: String,
    left: String,
    width: String,
    height: String,
    font: String,
    raw: Vec<char>,
}

impl View for PendingText {
    type V = PendingTextView;

    closed spec fn view(&self) -> PendingTextView {
        PendingTextView {
            top: self.top@,
            left: self.left@,
            width: self.width@,
            height: self.height@,
            font: self.font@,
            raw: self.raw@,
        }
    }
}

spec fn pending_views(ts: Seq<PendingText>) -> Seq<PendingTextView> {
    ts.map_values(|t: PendingText| t@)
}

spec fn font_views(fs: Seq<(String, u32)>) -> Seq<(Seq<char>, u32)> {
    fs.map_values(|f: (String, u32)| (f.0@, f.1))
}

/// The size of a font id among the definitions.
fn font_size(fonts: &Vec<(String, u32)>, id: &str) -> (r: u32)
    ensures
        r == font_size_of(font_views(fonts@), id@),
{
    let ghost fv = font_views(fonts@);
    let mut i: usize = fonts.len();
    assert(fv.take(fonts.len() as int) =~= fv);
    while i > 0
        invariant
            i <= fonts.len(),
            fv == font_views(fonts@),
            font_size_of(fv.take(i as int), id@) == font_size_of(fv, id@),
        decreases i,
    {
        assert(fv.take(i as int).drop_last() =~= fv.take(i - 1));
        assert(fv.take(i as int).last() == fv[i - 1]);
        if same_chars_str(&chars_of(fonts[i - 1].0.as_str()), id) {
            return fonts[i - 1].1;
        }
        i -= 1;
    }
    0
}

/// The kept text elements of a page.
fn resolve_texts(ts: &Vec<PendingText>, fonts: &Vec<(String, u32)>) -> (r: Vec<RawText>)
    ensures
        raw_text_views(r@) == resolved_texts(pending_views(ts@), font_views(fonts@)),
{
    let ghost pv = pending_views(ts@);
    let ghost fv = font_views(fonts@);
    let mut out: Vec<RawText> = Vec::new();
    let mut i: usize = 0;
    while i < ts.len()
        invariant
            i <= ts.len(),
            pv == pending_views(ts@),
            fv == font_views(fonts@),
            raw_text_views(out@) == resolved_texts(pv.take(i as int), fv),
        decreases ts.len() - i,
    {
        assert(pv.take(i + 1).drop_last() =~= pv.take(i as int));
        assert(pv.take(i + 1).last() == ts@[i as int]@);
        let p = &ts[i];
        let size = font_size(fonts, p.font.as_str());
        let raw = string_of(&p.raw);
        let text = sanitize_xml(raw.as_str());
        let tv = chars_of(text.as_str());
        let t = trim_chars(&tv);
        if t.len() > 0 && size > 0 {
            let ghost o0 = out@;
            out.push(
                RawText {
                    top: p.top.clone(),
                    left: p.left.clone(),
                    width: p.width.clone(),
                    height: p.height.clone(),
                    font_size: size,
                    text,
                },
            );
            assert(raw_text_views(out@) =~= raw_text_views(o0).push(out@.last()@));
        }
        i += 1;
    }
    assert(pv.take(ts.len() as int) =~= pv);
    out
}

/// The value of attribute `key` of a node, empty when absent.
fn attr_text(n: &XmlNode, key: &str) -> (r: String)
    ensures
        r@ == attr_or_empty(n@, key@),
{
    match attribute(n, key) {
        Some(v) => v,
        None => String::new(),
    }
}

/// A number attribute read as `u32`, 0 when absent or not a number.
fn attr_u32(n: &XmlNode, key: &str) -> (r: u32)
    ensures
        r == (match parse_u32(attr_or_empty(n@, key@)) {
            Some(v) => v,
            None => 0,
        }),
{
    let a = attr_text(n, key);
    match parse_u32_chars(&chars_of(a.as_str())) {
        Some(v) => v,
        None => 0,
    }
}

/// The view of the reading state held in separate variables.
spec fn scan_view(
    fonts: Seq<(String, u32)>,
    pages: Seq<RawPage>,
    open: bool,
    number: u32,
    width: String,
    height: String,
    texts: Seq<PendingText>,
    text_open: bool,
) -> LayoutScan {
    LayoutScan {
        fonts: font_views(fonts),
        pages: raw_page_views(pages),
        page: if open {
            Some(OpenPageView { number, width: width@, height: height@, texts: pending_views(texts) })
        } else {
            None
        },
        text_open,
    }
}

/// The pages of a parsed layout document: each `page` child of the root
/// element, with its text elements resolved against the font definitions
/// met up to the end of that page.
pub fn layout_scan(nodes: &Vec<XmlNode>) -> (r: Vec<RawPage>)
    ensures
        raw_page_views(r@) == raw_pages_of(node_views(nodes@)),
{
    let ghost nv = node_views(nodes@);
    let mut fonts: Vec<(String, u32)> = Vec::new();
    let mut pages: Vec<RawPage> = Vec::new();
    let mut open = false;
    let mut number: u32 = 0;
    let mut width = String::new();
    let mut height = String::new();
    let mut texts: Vec<PendingText> = Vec::new();
    let mut text_open = false;
    assert(font_views(fonts@) =~= Seq::<(Seq<char>, u32)>::empty());
    assert(raw_page_views(pages@) =~= Seq::<RawPageView>::empty());
    let mut i: usize = 0;
    while i < nodes.len()
        invariant
            i <= nodes.len(),
            nv == node_views(nodes@),
            scan_view(fonts@, pages@, open, number, width, height, texts@, text_open) == layout_run(
                layout_start(),
                nv.take(i as int),
            ),
        decreases nodes.len() - i,
    {
        assert(nv.take(i + 1).drop_last() =~= nv.take(i as int));
        assert(nv.take(i + 1).last() == nodes@[i as int]@);
        let n = &nodes[i];
        if n.level <= 3 {
            if open {
                let kept = resolve_texts(&texts, &fonts);
                let ghost p0 = pages@;
                pages.push(RawPage { number, width: width.clone(), height: height.clone(), texts: kept });
                assert(raw_page_views(pages@) =~= raw_page_views(p0).push(pages@.last()@));
            }
            open = false;
            text_open = false;
            texts = Vec::new();
            if n.level == 3 && same_chars_str(&chars_of(n.name.as_str()), "page") {
                open = true;
                number = attr_u32(n, "number");
                width = attr_text(n, "width");
                height = attr_text(n, "height");
                assert(pending_views(texts@) =~= Seq::<PendingTextView>::empty());
            }
        } else if open {
            if n.level == 4 {
                text_open = false;
                if same_chars_str(&chars_of(n.name.as_str()), "fontspec") {
                    let id = attr_text(n, "id");
                    let size = attr_u32(n, "size");
                    let ghost f0 = fonts@;
                    fonts.push((id, size));
                    assert(font_views(fonts@) =~= font_views(f0).push((fonts@.last().0@, size)));
                } else if same_chars_str(&chars_of(n.name.as_str()), "text") {
                    let t = PendingText {
                        top: attr_text(n, "top"),
                        left: attr_text(n, "left"),
                        width: attr_text(n, "width"),
                        height: attr_text(n, "height"),
                        font: attr_text(n, "font"),
                        raw: Vec::new(),
                    };
                    let ghost t0 = texts@;
                    texts.push(t);
                    assert(pending_views(texts@) =~= pending_views(t0).push(texts@.last()@));
                    text_open = true;
                }
            } else if text_open && n.is_text && texts.len() > 0 {
                let ghost t0 = texts@;
                let mut last = texts.pop().unwrap();
                assert(t0.drop_last() == texts@);
                match &n.text {
                    Some(s) => extend_str(&mut last.raw, s.as_str()),
                    None => {},
                }
                texts.push(last);
                assert(pending_views(texts@) =~= pending_views(t0).drop_last().push(texts@.last()@));
            }
        }
        i += 1;
    }
    assert(nv.take(nodes.len() as int) =~= nv);
    if open {
        let kept = resolve_texts(&texts, &fonts);
        let ghost p0 = pages@;
        pages.push(RawPage { number, width, height, texts: kept });
        assert(raw_page_views(pages@) =~= raw_page_views(p0).push(pages@.last()@));
    }
    pages
}

/// The pages of `pdftohtml -xml` output. The `<!DOCTYPE ...>` lines are
/// dropped first; an XML error comes back as `XML: ` and the parser's
/// message, and a document without pages is refused.
pub fn layout_pages(xml: &str) -> (r: Result<Vec<RawPage>, PdfPipelineError>)
    ensures
        match xml_document(without_doctype(xml@)) {
            Err(m) => r matches Err(PdfPipelineError::ExtractionFailed(e)) && e@ == "XML: "@ + m,
            Ok(nodes) => if raw_pages_of(nodes).len() == 0 {
                r matches Err(PdfPipelineError::ExtractionFailed(e)) && e@ == "XML sin páginas con texto"@
            } else {
                r matches Ok(ps) && raw_page_views(ps@) == raw_pages_of(nodes)
            },
        },
{
    let clean = strip_doctype(xml);
    let nodes = match parse_xml(clean.as_str()) {
        Ok(ns) => ns,
        Err(m) => {
            let mut v: Vec<char> = Vec::new();
            extend_str(&mut v, "XML: ");
            extend_str(&mut v, m.as_str());
            return Err(PdfPipelineError::ExtractionFailed(string_of(&v)));
        },
    };
    let pages = layout_scan(&nodes);
    if pages.len() == 0 {
        return Err(PdfPipelineError::ExtractionFailed("XML sin páginas con texto".to_string()));
    }
    Ok(pages)
}

} // verus!
