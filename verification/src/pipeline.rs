//! The import pipeline: the metadata of an EPUB and the sequence of
//! database steps that registers it, with duplicates detected by hash.
use vstd::prelude::*;
use crate::text::{chars_of, same_chars_str, string_of, trim, trim_str};
use crate::xml::{attribute, attribute_of, has_tag, is_tag, node_views, opt_view, parse_xml, xml_document, XmlNode, XmlNodeView};

verus! {

/// The outcome of importing one file.
#[derive(Debug, Clone, PartialEq, Eq, Structural)]
pub enum ImportStatus {
    /// The book was added to the library.
    Imported,
    /// A book with the same file hash is already in the library.
    Duplicate { existing_id: i64 },
}

/// Imports EPUB files into the library.
pub struct Pipeline;

/// The namespace of OPF package documents.
pub open spec fn opf_ns() -> Seq<char> {
    "http://www.idpf.org/2007/opf"@
}

/// The library's own metadata in an OPF document: the trimmed text of the
/// last `<meta property="rubrica:series">` and of the last
/// `<meta property="rubrica:progress">` that have text, starting from
/// `series` and `progress`.
pub open spec fn rubrica_metas(
    nodes: Seq<XmlNodeView>,
    series: Option<Seq<char>>,
    progress: Option<Seq<char>>,
) -> (Option<Seq<char>>, Option<Seq<char>>)
    decreases nodes.len(),
{
    if nodes.len() == 0 {
        (series, progress)
    } else {
        let (s, p) = rubrica_metas(nodes.drop_last(), series, progress);
        let n = nodes.last();
        if has_tag(n, opf_ns(), "meta"@) && attribute_of(n.attributes, "property"@) is Some
            && n.text is Some {
            let prop = attribute_of(n.attributes, "property"@)->0;
            let text = trim(n.text->0);
            if prop == "rubrica:series"@ {
                (Some(text), p)
            } else if prop == "rubrica:progress"@ {
                (s, Some(text))
            } else {
                (s, p)
            }
        } else {
            (s, p)
        }
    }
}

/// Reads the `rubrica:series` and `rubrica:progress` metadata of an OPF
/// document's nodes; the last of each wins over `series` and `progress`.
pub fn read_rubrica_metas(
    nodes: &Vec<XmlNode>,
    series: Option<String>,
    progress: Option<String>,
) -> (r: (Option<String>, Option<String>))
    ensures
        (opt_view(r.0), opt_view(r.1)) == rubrica_metas(node_views(nodes@), opt_view(series), opt_view(progress)),
{
    let ghost ns = node_views(nodes@);
    let ghost s0 = opt_view(series);
    let ghost p0 = opt_view(progress);
    let mut s = series;
    let mut p = progress;
    let mut i: usize = 0;
    while i < nodes.len()
        invariant
            i <= nodes.len(),
            ns == node_views(nodes@),
            (opt_view(s), opt_view(p)) == rubrica_metas(ns.take(i as int), s0, p0),
        decreases nodes.len() - i,
    {
        proof {
            assert(ns.take(i + 1).drop_last() =~= ns.take(i as int));
            assert(ns.take(i + 1).last() == nodes@[i as int]@);
        }
        let n = &nodes[i];
        if is_tag(n, "http://www.idpf.org/2007/opf", "meta") {
            if let Some(prop) = attribute(n, "property") {
                if let Some(text) = &n.text {
                    let pv = chars_of(prop.as_str());
                    if same_chars_str(&pv, "rubrica:series") {
                        s = Some(trim_str(text.as_str()));
                    } else if same_chars_str(&pv, "rubrica:progress") {
                        p = Some(trim_str(text.as_str()));
                    }
                }
            }
        }
        i += 1;
    }
    assert(ns.take(nodes.len() as int) =~= ns);
    (s, p)
}

/// The metadata that GutenCore reads from an EPUB.
#[derive(Debug, Clone)]
pub struct CoreMetadata {
    pub title: String,
    pub author: Option<String>,
    pub language: String,
    pub identifier: String,
    pub series: Option<String>,
}

/// The cover image of an EPUB: its path in the package and media type.
#[derive(Debug, Clone)]
pub struct CoverImage {
    pub href: String,
    pub media_type: String,
}

/// The metadata that an import registers.
#[derive(Debug, Clone)]
pub struct ImportMetadata {
    pub title: String,
    pub author: String,
    pub series: Option<String>,
    pub progress: Option<String>,
    pub cover_href: Option<String>,
    pub cover_media_type: Option<String>,
}

/// The nodes of an OPF document, or none when there is no document or it
/// does not parse.
pub open spec fn opf_nodes(opf: Option<Seq<char>>) -> Seq<XmlNodeView> {
    match opf {
        Some(t) => match xml_document(t) {
            Ok(ns) => ns,
            Err(_) => Seq::empty(),
        },
        None => Seq::empty(),
    }
}

impl Pipeline {
    /// The metadata of an import: GutenCore's title; its author or
    /// `Unknown`; its series, replaced by the OPF's `rubrica:series`; the
    /// OPF's `rubrica:progress`; the cover's path and media type. An OPF that
    /// cannot be read or parsed adds nothing.
    pub fn import_metadata(core: &CoreMetadata, opf_content: Option<&str>, cover: Option<&CoverImage>) -> (m: ImportMetadata)
        ensures
            m.title@ == core.title@,
            m.author@ == match core.author {
                Some(a) => a@,
                None => "Unknown"@,
            },
            (opt_view(m.series), opt_view(m.progress)) == rubrica_metas(
                opf_nodes(crate::library_db::opt_str(opf_content)),
                opt_view(core.series),
                None,
            ),
            opt_view(m.cover_href) == match cover {
                Some(c) => Some(c.href@),
                None => None,
            },
            opt_view(m.cover_media_type) == match cover {
                Some(c) => Some(c.media_type@),
                None => None,
            },
    {
        let nodes: Vec<XmlNode> = match opf_content {
            Some(t) => match parse_xml(t) {
                Ok(ns) => ns,
                Err(_) => Vec::new(),
            },
            None => Vec::new(),
        };
        proof {
            if node_views(nodes@).len() == 0 {
                assert(node_views(nodes@) =~= opf_nodes(crate::library_db::opt_str(opf_content)));
            }
        }
        let (series, progress) = read_rubrica_metas(&nodes, core.series.clone(), None);
        let author = match &core.author {
            Some(a) => a.clone(),
            None => "Unknown".to_string(),
        };
        let (cover_href, cover_media_type) = match cover {
            Some(c) => (Some(c.href.clone()), Some(c.media_type.clone())),
            None => (None, None),
        };
        ImportMetadata {
            title: core.title.clone(),
            author,
            series,
            progress,
            cover_href,
            cover_media_type,
        }
    }
}

// ─── The import as a sequence of database steps ─────────────────────────

/// The row of a new book.
#[derive(Debug, Clone)]
pub struct NewBook {
    pub title: String,
    pub author_id: i64,
    pub series_id: Option<i64>,
    pub original_path: String,
    pub current_path: String,
    pub is_normalized: bool,
    pub reading_progress: Option<String>,
    pub file_hash: String,
    pub cover_href: Option<String>,
    pub cover_media_type: Option<String>,
}

/// What the import asks of the database next.
#[derive(Debug, Clone)]
pub enum ImportAction {
    /// Look for a book with this file hash (current or past).
    FindByHash { hash: String },
    /// Insert the author, or find it, by name; answer with its id.
    UpsertAuthor { name: String },
    /// Insert the series, or find it, by name; answer with its id.
    UpsertSeries { name: String },
    /// Insert the book; answer with its id.
    InsertBook(NewBook),
    /// Record the hash in the book's hash history.
    AddBookHash { book_id: i64, hash: String },
    /// Index the book's title and author for full-text search.
    InsertFts { book_id: i64, title: String, author: String },
    /// The import is over.
    Finish(ImportStatus),
}

/// What the database answered.
#[derive(Debug, Clone, Copy, PartialEq, Eq, Structural)]
pub enum ImportEvent {
    /// Nothing asked yet.
    Start,
    /// The book with the hash, if any.
    HashLookup(Option<i64>),
    AuthorId(i64),
    SeriesId(i64),
    BookId(i64),
    /// The last statement ran.
    Done,
}

/// Where an import stands: what it waits for.
#[derive(Debug, Clone, Copy, PartialEq, Eq, Structural)]
pub enum ImportStage {
    NotStarted,
    AwaitingHashLookup,
    AwaitingAuthor,
    AwaitingSeries,
    AwaitingBook,
    AwaitingHashRecord,
    AwaitingIndex,
    Finished,
}

/// The state of one import.
#[derive(Debug, Clone)]
pub struct ImportState {
    pub path: String,
    pub hash: String,
    pub meta: ImportMetadata,
    pub stage: ImportStage,
    pub author_id: i64,
    pub book_id: i64,
}

/// Whether an answer is the one the stage waits for.
pub open spec fn event_fits(stage: ImportStage, event: ImportEvent) -> bool {
    match stage {
        ImportStage::NotStarted => event is Start,
        ImportStage::AwaitingHashLookup => event is HashLookup,
        ImportStage::AwaitingAuthor => event is AuthorId,
        ImportStage::AwaitingSeries => event is SeriesId,
        ImportStage::AwaitingBook => event is BookId,
        ImportStage::AwaitingHashRecord => event is Done,
        ImportStage::AwaitingIndex => event is Done,
        ImportStage::Finished => false,
    }
}

/// The row of the new book: the metadata, the file's path as both original
/// and current path, not normalized, with its hash.
pub open spec fn new_book_of(st: ImportState, series_id: Option<i64>) -> NewBook {
    NewBook {
        title: st.meta.title,
        author_id: st.author_id,
        series_id: series_id,
        original_path: st.path,
        current_path: st.path,
        is_normalized: false,
        reading_progress: st.meta.progress,
        file_hash: st.hash,
        cover_href: st.meta.cover_href,
        cover_media_type: st.meta.cover_media_type,
    }
}

impl ImportState {
    /// An import of the file at `path`, with its hash and metadata, not started.
    pub fn new(path: String, hash: String, meta: ImportMetadata) -> (s: ImportState)
        ensures
            s.path == path,
            s.hash == hash,
            s.meta == meta,
            s.stage == ImportStage::NotStarted,
    {
        ImportState { path, hash, meta, stage: ImportStage::NotStarted, author_id: 0, book_id: 0 }
    }
}

impl Pipeline {
    /// The next step of an import, given the answer to the previous one:
    ///  - first the hash is looked up; a book found with it ends the import
    ///    as a duplicate of that book, before anything is written;
    ///  - then the author, then the series (when there is one), then the
    ///    book row, its hash record and its search index entry;
    ///  - then the import ends as imported.
    pub fn import_step(state: ImportState, event: ImportEvent) -> (r: (ImportState, ImportAction))
        requires
            event_fits(state.stage, event),
        ensures
            r.0.path == state.path,
            r.0.hash == state.hash,
            r.0.meta == state.meta,
            match (state.stage, event) {
                (ImportStage::NotStarted, _) => {
                    &&& r.0.stage == ImportStage::AwaitingHashLookup
                    &&& r.1 == ImportAction::FindByHash { hash: state.hash }
                },
                (ImportStage::AwaitingHashLookup, ImportEvent::HashLookup(Some(id))) => {
                    &&& r.0.stage == ImportStage::Finished
                    &&& r.1 == ImportAction::Finish(ImportStatus::Duplicate { existing_id: id })
                },
                (ImportStage::AwaitingHashLookup, _) => {
                    &&& r.0.stage == ImportStage::AwaitingAuthor
                    &&& r.1 == ImportAction::UpsertAuthor { name: state.meta.author }
                },
                (ImportStage::AwaitingAuthor, ImportEvent::AuthorId(a)) => {
                    &&& r.0.author_id == a
                    &&& match state.meta.series {
                        Some(sname) => {
                            &&& r.0.stage == ImportStage::AwaitingSeries
                            &&& r.1 == ImportAction::UpsertSeries { name: sname }
                        },
                        None => {
                            &&& r.0.stage == ImportStage::AwaitingBook
                            &&& r.1 == ImportAction::InsertBook(new_book_of(r.0, None))
                        },
                    }
                },
                (ImportStage::AwaitingSeries, ImportEvent::SeriesId(sid)) => {
                    &&& r.0.stage == ImportStage::AwaitingBook
                    &&& r.0.author_id == state.author_id
                    &&& r.1 == ImportAction::InsertBook(new_book_of(state, Some(sid)))
                },
                (ImportStage::AwaitingBook, ImportEvent::BookId(b)) => {
                    &&& r.0.stage == ImportStage::AwaitingHashRecord
                    &&& r.0.book_id == b
                    &&& r.1 == ImportAction::AddBookHash { book_id: b, hash: state.hash }
                },
                (ImportStage::AwaitingHashRecord, _) => {
                    &&& r.0.stage == ImportStage::AwaitingIndex
                    &&& r.0.book_id == state.book_id
                    &&& r.1 == ImportAction::InsertFts {
                        book_id: state.book_id,
                        title: state.meta.title,
                        author: state.meta.author,
                    }
                },
                (ImportStage::AwaitingIndex, _) => {
                    &&& r.0.stage == ImportStage::Finished
                    &&& r.1 == ImportAction::Finish(ImportStatus::Imported)
                },
                _ => false,
            },
    {
        let mut st = state;
        match (st.stage, event) {
            (ImportStage::NotStarted, _) => {
                st.stage = ImportStage::AwaitingHashLookup;
                let hash = st.hash.clone();
                (st, ImportAction::FindByHash { hash })
            },
            (ImportStage::AwaitingHashLookup, ImportEvent::HashLookup(Some(id))) => {
                st.stage = ImportStage::Finished;
                (st, ImportAction::Finish(ImportStatus::Duplicate { existing_id: id }))
            },
            (ImportStage::AwaitingHashLookup, _) => {
                st.stage = ImportStage::AwaitingAuthor;
                let name = st.meta.author.clone();
                (st, ImportAction::UpsertAuthor { name })
            },
            (ImportStage::AwaitingAuthor, ImportEvent::AuthorId(a)) => {
                st.author_id = a;
                match &st.meta.series {
                    Some(sname) => {
                        let name = sname.clone();
                        st.stage = ImportStage::AwaitingSeries;
                        (st, ImportAction::UpsertSeries { name })
                    },
                    None => {
                        st.stage = ImportStage::AwaitingBook;
                        let b = new_book(&st, None);
                        (st, ImportAction::InsertBook(b))
                    },
                }
            },
            (ImportStage::AwaitingSeries, ImportEvent::SeriesId(sid)) => {
                let b = new_book(&st, Some(sid));
                st.stage = ImportStage::AwaitingBook;
                (st, ImportAction::InsertBook(b))
            },
            (ImportStage::AwaitingBook, ImportEvent::BookId(b)) => {
                st.book_id = b;
                st.stage = ImportStage::AwaitingHashRecord;
                let hash = st.hash.clone();
                (st, ImportAction::AddBookHash { book_id: b, hash })
            },
            (ImportStage::AwaitingHashRecord, _) => {
                st.stage = ImportStage::AwaitingIndex;
                let title = st.meta.title.clone();
                let author = st.meta.author.clone();
                let book_id = st.book_id;
                (st, ImportAction::InsertFts { book_id, title, author })
            },
            _ => {
                st.stage = ImportStage::Finished;
                (st, ImportAction::Finish(ImportStatus::Imported))
            },
        }
    }
}

/// The row of the new book.
fn new_book(st: &ImportState, series_id: Option<i64>) -> (b: NewBook)
    ensures
        b == new_book_of(*st, series_id),
{
    NewBook {
        title: st.meta.title.clone(),
        author_id: st.author_id,
        series_id,
        original_path: st.path.clone(),
        current_path: st.path.clone(),
        is_normalized: false,
        reading_progress: st.meta.progress.clone(),
        file_hash: st.hash.clone(),
        cover_href: st.meta.cover_href.clone(),
        cover_media_type: st.meta.cover_media_type.clone(),
    }
}

} // verus!
