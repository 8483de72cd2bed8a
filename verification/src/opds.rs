//! The OPDS catalog and the browser page of the embedded server: Atom
//! feeds of books, authors and series, rendered from the library's records.
use vstd::prelude::*;
use crate::library_db::{AuthorStats, BookListItem, SeriesStats};
use crate::markup::{decimal, decimal_chars, escaped, extend_escaped, signed_decimal, signed_decimal_chars};
use crate::text::{chars_of, contains, extend_chars, extend_str, string_of};

verus! {

/// The start of every feed, up to its id.
pub const FEED_OPEN: &'static str = "<?xml version=\"1.0\" encoding=\"UTF-8\"?>\n<feed xmlns=\"http://www.w3.org/2005/Atom\" xmlns:dc=\"http://purl.org/dc/terms/\" xmlns:opds=\"http://opds-spec.org/2010/catalog\">\n  <id>";

/// The media type of acquisition feeds.
pub const ACQUISITION_TYPE: &'static str = "application/atom+xml;profile=opds-catalog;kind=acquisition";

/// The browser page up to its cards.
pub const BROWSER_HEAD: &'static str = "<!DOCTYPE html>\n<html lang=\"es\">\n<head>\n<meta charset=\"utf-8\"/>\n<meta name=\"viewport\" content=\"width=device-width, initial-scale=1\"/>\n<title>Biblioteca Rúbrica</title>\n<style>\n  * { box-sizing: border-box; }\n  body {\n    margin: 0; padding: 1rem;\n    font-family: -apple-system, BlinkMacSystemFont, \"Segoe UI\", Roboto, sans-serif;\n    background: #121212; color: #e0e0e0;\n  }\n  h1 { text-align: center; margin-bottom: 1.5rem; color: #fff; }\n  .grid {\n    display: grid;\n    grid-template-columns: repeat(auto-fill, minmax(160px, 1fr));\n    gap: 1rem;\n    max-width: 1200px;\n    margin: 0 auto;\n  }\n  .card {\n    background: #1e1e1e;\n    border-radius: 8px;\n    overflow: hidden;\n    display: flex;\n    flex-direction: column;\n    box-shadow: 0 2px 8px rgba(0,0,0,0.4);\n  }\n  .cover {\n    width: 100%;\n    aspect-ratio: 2 / 3;\n    background: #333;\n    display: flex;\n    align-items: center;\n    justify-content: center;\n    overflow: hidden;\n  }\n  .cover img { width: 100%; height: 100%; object-fit: cover; display: block; }\n  .no-cover { color: #888; font-size: 0.85rem; }\n  .info {\n    padding: 0.75rem;\n    flex: 1;\n    display: flex;\n    flex-direction: column;\n    gap: 0.35rem;\n  }\n  .title { font-weight: 600; font-size: 0.95rem; color: #fff; line-height: 1.2; }\n  .author { font-size: 0.8rem; color: #bbb; }\n  .series { font-size: 0.75rem; color: #888; font-style: italic; }\n  .download {\n    margin-top: auto;\n    padding-top: 0.5rem;\n    text-align: center;\n    background: #2a2a2a;\n    color: #81c784;\n    text-decoration: none;\n    border-radius: 4px;\n    padding: 0.5rem;\n    font-size: 0.8rem;\n    font-weight: 500;\n  }\n  .download:hover { background: #333; }\n  .stats { text-align: center; margin-top: 1.5rem; color: #888; font-size: 0.8rem; }\n</style>\n</head>\n<body>\n<h1>Biblioteca Rúbrica</h1>\n<div class=\"grid\">\n";

/// The browser page between its cards and the book count.
pub const BROWSER_MIDDLE: &'static str = "\n</div>\n<div class=\"stats\">";

/// The end of the browser page.
pub const BROWSER_TAIL: &'static str = " libros</div>\n</body>\n</html>";

/// The view of an optional string.
pub open spec fn opt_text(o: Option<String>) -> Option<Seq<char>> {
    crate::xml::opt_view(o)
}

/// The series name, or nothing.
pub open spec fn series_text(o: Option<String>) -> Seq<char> {
    match o {
        Some(s) => s@,
        None => Seq::empty(),
    }
}

/// The series element of an entry: none without a series name.
pub open spec fn series_tag(series: Seq<char>) -> Seq<char> {
    if series.len() == 0 {
        Seq::empty()
    } else {
        "  <dc:publisher>"@ + escaped(series) + "</dc:publisher>\n"@
    }
}

/// The cover links of a book with a cover: image and thumbnail, both served
/// from `/opds/cover/{id}` with the cover's media type (JPEG when unknown).
pub open spec fn cover_links(id: i64, media_type: Option<Seq<char>>) -> Seq<char> {
    let mt = match media_type {
        Some(m) => m,
        None => "image/jpeg"@,
    };
    "    <link rel=\"http://opds-spec.org/image\" href=\"/opds/cover/"@ + signed_decimal(id as int)
        + "\" type=\""@ + mt + "\"/>\n    <link rel=\"http://opds-spec.org/image/thumbnail\" href=\"/opds/cover/"@
        + signed_decimal(id as int) + "\" type=\""@ + mt + "\"/>\n"@
}

/// The Atom entry of a book: title, id, author, update time, series,
/// cover links and the EPUB acquisition link; text escaped for XML.
pub open spec fn entry_xml(b: BookListItem, updated: Seq<char>) -> Seq<char> {
    let series = series_text(b.series_name);
    let covers = if b.cover_href is Some {
        cover_links(b.id, opt_text(b.cover_media_type))
    } else {
        Seq::empty()
    };
    "  <entry>\n    <title>"@ + escaped(b.title@) + "</title>\n    <id>urn:rubrica:book:"@
        + signed_decimal(b.id as int) + "</id>\n    <author><name>"@ + escaped(b.author_name@)
        + "</name></author>\n    <updated>"@ + updated + "</updated>\n"@ + series_tag(series) + covers
        + "    <link rel=\"http://opds-spec.org/acquisition\" type=\"application/epub+zip\" href=\"/opds/download/"@
        + signed_decimal(b.id as int) + "\" title=\"Descargar EPUB\"/>\n  </entry>\n"@
}

/// The entries of the books, in order.
pub open spec fn entries_xml(bs: Seq<BookListItem>, updated: Seq<char>) -> Seq<char>
    decreases bs.len(),
{
    if bs.len() == 0 {
        Seq::empty()
    } else {
        entries_xml(bs.drop_last(), updated) + entry_xml(bs.last(), updated)
    }
}

/// A navigation link of a feed.
pub open spec fn link_xml(rel: Seq<char>, href: Seq<char>) -> Seq<char> {
    "  <link rel=\""@ + rel + "\" href=\""@ + href + "\" type=\""@ + ACQUISITION_TYPE@ + "\"/>\n"@
}

/// An Atom feed: its id, title and update time, the fixed author, its
/// links, then its entries.
pub open spec fn feed_xml(id: Seq<char>, title: Seq<char>, now: Seq<char>, links: Seq<char>, entries: Seq<char>) -> Seq<char> {
    FEED_OPEN@ + id + "</id>\n  <title>"@ + title + "</title>\n  <updated>"@ + now
        + "</updated>\n  <author><name>Rúbrica Core</name></author>\n"@ + links + entries + "\n</feed>"@
}

/// The navigation entry of an author or a series (`kind` is `author` or
/// `series`), leading to the feed of its books.
pub open spec fn nav_entry_xml(kind: Seq<char>, id: i64, name: Seq<char>, now: Seq<char>) -> Seq<char> {
    "  <entry>\n    <title>"@ + escaped(name) + "</title>\n    <id>urn:rubrica:"@ + kind + ":"@
        + signed_decimal(id as int) + "</id>\n    <updated>"@ + now
        + "</updated>\n    <link rel=\"subsection\" type=\""@ + ACQUISITION_TYPE@ + "\" href=\"/opds/"@
        + kind + "/"@ + signed_decimal(id as int) + "\" title=\"Libros de "@ + escaped(name)
        + "\"/>\n  </entry>\n"@
}

/// The navigation entries of authors.
pub open spec fn author_entries_xml(xs: Seq<AuthorStats>, now: Seq<char>) -> Seq<char>
    decreases xs.len(),
{
    if xs.len() == 0 {
        Seq::empty()
    } else {
        author_entries_xml(xs.drop_last(), now) + nav_entry_xml(
            "author"@,
            xs.last().id,
            xs.last().name@,
            now,
        )
    }
}

/// The navigation entries of series.
pub open spec fn series_entries_xml(xs: Seq<SeriesStats>, now: Seq<char>) -> Seq<char>
    decreases xs.len(),
{
    if xs.len() == 0 {
        Seq::empty()
    } else {
        series_entries_xml(xs.drop_last(), now) + nav_entry_xml(
            "series"@,
            xs.last().id,
            xs.last().name@,
            now,
        )
    }
}

/// The catalog of all books.
pub open spec fn library_feed_xml(bs: Seq<BookListItem>, now: Seq<char>) -> Seq<char> {
    feed_xml("urn:uuid:rubrica-library"@, "Biblioteca Rúbrica"@, now, link_xml("self"@, "/opds"@), entries_xml(bs, now))
}

/// The navigation feed of authors.
pub open spec fn authors_feed_xml(xs: Seq<AuthorStats>, now: Seq<char>) -> Seq<char> {
    feed_xml(
        "urn:uuid:rubrica-authors"@,
        "Autores"@,
        now,
        link_xml("self"@, "/opds/authors"@) + link_xml("start"@, "/opds"@),
        author_entries_xml(xs, now),
    )
}

/// The feed of an author's books.
pub open spec fn author_books_feed_xml(author_id: i64, bs: Seq<BookListItem>, now: Seq<char>) -> Seq<char> {
    feed_xml(
        "urn:rubrica:author:"@ + signed_decimal(author_id as int),
        "Libros del autor"@,
        now,
        link_xml("self"@, "/opds/author/"@ + signed_decimal(author_id as int)) + link_xml("start"@, "/opds"@)
            + link_xml("up"@, "/opds/authors"@),
        entries_xml(bs, now),
    )
}

/// The navigation feed of series.
pub open spec fn series_feed_xml(xs: Seq<SeriesStats>, now: Seq<char>) -> Seq<char> {
    feed_xml(
        "urn:uuid:rubrica-series"@,
        "Series"@,
        now,
        link_xml("self"@, "/opds/series"@) + link_xml("start"@, "/opds"@),
        series_entries_xml(xs, now),
    )
}

/// The feed of a series' books.
pub open spec fn series_books_feed_xml(series_id: i64, bs: Seq<BookListItem>, now: Seq<char>) -> Seq<char> {
    feed_xml(
        "urn:rubrica:series:"@ + signed_decimal(series_id as int),
        "Libros de la serie"@,
        now,
        link_xml("self"@, "/opds/series/"@ + signed_decimal(series_id as int)) + link_xml("start"@, "/opds"@)
            + link_xml("up"@, "/opds/series"@),
        entries_xml(bs, now),
    )
}

/// The card of a book on the browser page: cover (or a placeholder), title,
/// author, series and download link; text escaped for HTML.
pub open spec fn card_html(b: BookListItem) -> Seq<char> {
    let title = escaped(b.title@);
    let series = match b.series_name {
        Some(s) => escaped(s@),
        None => Seq::empty(),
    };
    let series_html = if series.len() == 0 {
        Seq::empty()
    } else {
        "<div class=\"series\">"@ + series + "</div>"@
    };
    let cover_html = if b.cover_href is Some {
        "<img src=\"/opds/cover/"@ + signed_decimal(b.id as int) + "\" alt=\""@ + title
            + "\" loading=\"lazy\"/>"@
    } else {
        "<div class=\"no-cover\">Sin portada</div>"@
    };
    "<div class=\"card\">\n  <div class=\"cover\">"@ + cover_html
        + "</div>\n  <div class=\"info\">\n    <div class=\"title\">"@ + title
        + "</div>\n    <div class=\"author\">"@ + escaped(b.author_name@) + "</div>\n    "@
        + series_html + "\n    <a class=\"download\" href=\"/opds/download/"@ + signed_decimal(b.id as int)
        + "\" download>Descargar EPUB</a>\n  </div>\n</div>\n"@
}

/// The cards of the books, in order.
pub open spec fn cards_html(bs: Seq<BookListItem>) -> Seq<char>
    decreases bs.len(),
{
    if bs.len() == 0 {
        Seq::empty()
    } else {
        cards_html(bs.drop_last()) + card_html(bs.last())
    }
}

/// The browser page: the cards of all books and their count.
pub open spec fn browser_html(bs: Seq<BookListItem>) -> Seq<char> {
    BROWSER_HEAD@ + cards_html(bs) + BROWSER_MIDDLE@ + decimal(bs.len()) + BROWSER_TAIL@
}

/// Appends the signed decimal of `n`.
fn push_int(out: &mut Vec<char>, n: i64)
    ensures
        final(out)@ == old(out)@ + signed_decimal(n as int),
{
    let d = signed_decimal_chars(n);
    extend_chars(out, &d);
}

/// Appends the escape of a string.
fn push_escaped(out: &mut Vec<char>, s: &str)
    ensures
        final(out)@ == old(out)@ + escaped(s@),
{
    let v = chars_of(s);
    extend_escaped(out, &v);
}

/// The start of a book's entry, up to its update time.
pub open spec fn entry_head(b: BookListItem, updated: Seq<char>) -> Seq<char> {
    "  <entry>\n    <title>"@ + escaped(b.title@) + "</title>\n    <id>urn:rubrica:book:"@
        + signed_decimal(b.id as int) + "</id>\n    <author><name>"@ + escaped(b.author_name@)
        + "</name></author>\n    <updated>"@ + updated + "</updated>\n"@
}

/// The end of a book's entry: its acquisition link.
pub open spec fn entry_tail(id: i64) -> Seq<char> {
    "    <link rel=\"http://opds-spec.org/acquisition\" type=\"application/epub+zip\" href=\"/opds/download/"@
        + signed_decimal(id as int) + "\" title=\"Descargar EPUB\"/>\n  </entry>\n"@
}

/// The cover links of a book, if it has a cover.
pub open spec fn entry_covers(b: BookListItem) -> Seq<char> {
    if b.cover_href is Some {
        cover_links(b.id, opt_text(b.cover_media_type))
    } else {
        Seq::empty()
    }
}

/// An entry is its head, series, covers and tail.
proof fn lemma_entry_parts(b: BookListItem, updated: Seq<char>)
    ensures
        entry_xml(b, updated) =~= entry_head(b, updated) + series_tag(series_text(b.series_name))
            + entry_covers(b) + entry_tail(b.id),
{
}

/// The image link of a cover served as `/opds/cover/{id}` with the given
/// media type.
pub open spec fn image_link(id: i64, media_type: Seq<char>) -> Seq<char> {
    "<link rel=\"http://opds-spec.org/image\" href=\"/opds/cover/"@ + signed_decimal(id as int) + "\" type=\""@
        + media_type + "\"/>"@
}

/// The thumbnail link of a cover served as `/opds/cover/{id}` with the
/// given media type.
pub open spec fn thumbnail_link(id: i64, media_type: Seq<char>) -> Seq<char> {
    "<link rel=\"http://opds-spec.org/image/thumbnail\" href=\"/opds/cover/"@ + signed_decimal(id as int)
        + "\" type=\""@ + media_type + "\"/>"@
}

/// A book with a cover and a stored media type gets an image link and a
/// thumbnail link of that media type in its OPDS entry (JPEG is only the
/// fallback for a cover of unknown type).
pub proof fn lemma_cover_links_carry_media_type(b: BookListItem, updated: Seq<char>)
    requires
        b.cover_href is Some,
        b.cover_media_type is Some,
    ensures
        contains(entry_xml(b, updated), image_link(b.id, b.cover_media_type->0@)),
        contains(entry_xml(b, updated), thumbnail_link(b.id, b.cover_media_type->0@)),
{
    reveal_strlit("    <link rel=\"http://opds-spec.org/image\" href=\"/opds/cover/");
    reveal_strlit("\" type=\"");
    reveal_strlit("\"/>\n    <link rel=\"http://opds-spec.org/image/thumbnail\" href=\"/opds/cover/");
    reveal_strlit("\"/>\n");
    reveal_strlit("<link rel=\"http://opds-spec.org/image\" href=\"/opds/cover/");
    reveal_strlit("<link rel=\"http://opds-spec.org/image/thumbnail\" href=\"/opds/cover/");
    reveal_strlit("\"/>");
    reveal_strlit("    ");
    reveal_strlit("\n    ");
    reveal_strlit("\n");
    let m = b.cover_media_type->0@;
    let img = image_link(b.id, m);
    let thumb = thumbnail_link(b.id, m);
    lemma_entry_parts(b, updated);
    let head = entry_head(b, updated) + series_tag(series_text(b.series_name));
    let tail = entry_tail(b.id);
    assert(opt_text(b.cover_media_type) == Some(m));
    assert(entry_covers(b) =~= "    "@ + img + "\n    "@ + thumb + "\n"@);
    assert(entry_xml(b, updated) =~= (head + "    "@) + img + ("\n    "@ + thumb + "\n"@ + tail));
    crate::text::lemma_contains_within(head + "    "@, img, "\n    "@ + thumb + "\n"@ + tail);
    assert(entry_xml(b, updated) =~= (head + "    "@ + img + "\n    "@) + thumb + ("\n"@ + tail));
    crate::text::lemma_contains_within(head + "    "@ + img + "\n    "@, thumb, "\n"@ + tail);
}

fn push_entry_head(out: &mut Vec<char>, book: &BookListItem, updated: &str)
    ensures
        final(out)@ == old(out)@ + entry_head(*book, updated@),
{
    let ghost o = out@;
    extend_str(out, "  <entry>\n    <title>");
    push_escaped(out, book.title.as_str());
    extend_str(out, "</title>\n    <id>urn:rubrica:book:");
    push_int(out, book.id);
    extend_str(out, "</id>\n    <author><name>");
    push_escaped(out, book.author_name.as_str());
    extend_str(out, "</name></author>\n    <updated>");
    extend_str(out, updated);
    extend_str(out, "</updated>\n");
    assert(out@ =~= o + entry_head(*book, updated@));
}

fn push_series_tag(out: &mut Vec<char>, series: &Option<String>)
    ensures
        final(out)@ == old(out)@ + series_tag(series_text(*series)),
{
    let ghost o = out@;
    match series {
        Some(s) => {
            if s.as_str().is_empty() {
            } else {
                extend_str(out, "  <dc:publisher>");
                push_escaped(out, s.as_str());
                extend_str(out, "</dc:publisher>\n");
            }
        },
        None => {},
    }
    assert(out@ =~= o + series_tag(series_text(*series)));
}

fn push_covers(out: &mut Vec<char>, book: &BookListItem)
    ensures
        final(out)@ == old(out)@ + entry_covers(*book),
{
    let ghost o = out@;
    if book.cover_href.is_some() {
        let mt: &str = match &book.cover_media_type {
            Some(m) => m.as_str(),
            None => "image/jpeg",
        };
        extend_str(out, "    <link rel=\"http://opds-spec.org/image\" href=\"/opds/cover/");
        push_int(out, book.id);
        extend_str(out, "\" type=\"");
        extend_str(out, mt);
        extend_str(out, "\"/>\n    <link rel=\"http://opds-spec.org/image/thumbnail\" href=\"/opds/cover/");
        push_int(out, book.id);
        extend_str(out, "\" type=\"");
        extend_str(out, mt);
        extend_str(out, "\"/>\n");
    }
    assert(out@ =~= o + entry_covers(*book));
}

/// Appends the entry of a book.
fn push_entry(out: &mut Vec<char>, book: &BookListItem, updated: &str)
    ensures
        final(out)@ == old(out)@ + entry_xml(*book, updated@),
{
    let ghost o = out@;
    push_entry_head(out, book, updated);
    push_series_tag(out, &book.series_name);
    push_covers(out, book);
    let ghost o3 = out@;
    extend_str(out, "    <link rel=\"http://opds-spec.org/acquisition\" type=\"application/epub+zip\" href=\"/opds/download/");
    push_int(out, book.id);
    extend_str(out, "\" title=\"Descargar EPUB\"/>\n  </entry>\n");
    assert(out@ =~= o3 + entry_tail(book.id));
    proof {
        lemma_entry_parts(*book, updated@);
    }
    assert(out@ =~= o + entry_xml(*book, updated@));
}

/// The Atom entry of a book.
pub fn opds_entry(book: &BookListItem, updated: &str) -> (r: String)
    ensures
        r@ == entry_xml(*book, updated@),
{
    let mut out: Vec<char> = Vec::new();
    push_entry(&mut out, book, updated);
    assert(out@ =~= entry_xml(*book, updated@));
    string_of(&out)
}

/// Appends the entries of the books.
fn push_entries(out: &mut Vec<char>, books: &Vec<BookListItem>, updated: &str)
    ensures
        final(out)@ == old(out)@ + entries_xml(books@, updated@),
{
    let ghost o = out@;
    let mut i: usize = 0;
    while i < books.len()
        invariant
            i <= books.len(),
            out@ == o + entries_xml(books@.take(i as int), updated@),
        decreases books.len() - i,
    {
        proof {
            assert(books@.take(i + 1).drop_last() =~= books@.take(i as int));
            assert(books@.take(i + 1).last() == books@[i as int]);
        }
        push_entry(out, &books[i], updated);
        assert(out@ =~= o + entries_xml(books@.take(i + 1), updated@));
        i += 1;
    }
    assert(books@.take(books.len() as int) =~= books@);
}

/// Appends a navigation link.
fn push_link(out: &mut Vec<char>, rel: &str, href: &Vec<char>)
    ensures
        final(out)@ == old(out)@ + link_xml(rel@, href@),
{
    let ghost o = out@;
    extend_str(out, "  <link rel=\"");
    extend_str(out, rel);
    extend_str(out, "\" href=\"");
    extend_chars(out, href);
    extend_str(out, "\" type=\"");
    extend_str(out, ACQUISITION_TYPE);
    extend_str(out, "\"/>\n");
    assert(out@ =~= o + link_xml(rel@, href@));
}

/// A feed from its parts.
fn render_feed(id: &Vec<char>, title: &str, now: &str, links: &Vec<char>, entries: &Vec<char>) -> (r: String)
    ensures
        r@ == feed_xml(id@, title@, now@, links@, entries@),
{
    let mut out: Vec<char> = Vec::new();
    extend_str(&mut out, FEED_OPEN);
    extend_chars(&mut out, id);
    extend_str(&mut out, "</id>\n  <title>");
    extend_str(&mut out, title);
    extend_str(&mut out, "</title>\n  <updated>");
    extend_str(&mut out, now);
    extend_str(&mut out, "</updated>\n  <author><name>Rúbrica Core</name></author>\n");
    extend_chars(&mut out, links);
    extend_chars(&mut out, entries);
    extend_str(&mut out, "\n</feed>");
    assert(out@ =~= feed_xml(id@, title@, now@, links@, entries@));
    string_of(&out)
}

/// `s` followed by the signed decimal of `n`.
fn with_int(s: &str, n: i64) -> (r: Vec<char>)
    ensures
        r@ == s@ + signed_decimal(n as int),
{
    let mut v = chars_of(s);
    push_int(&mut v, n);
    v
}

/// The catalog of all books, updated at `now`.
pub fn library_feed(books: &Vec<BookListItem>, now: &str) -> (r: String)
    ensures
        r@ == library_feed_xml(books@, now@),
{
    let mut entries: Vec<char> = Vec::new();
    push_entries(&mut entries, books, now);
    let mut links: Vec<char> = Vec::new();
    push_link(&mut links, "self", &chars_of("/opds"));
    assert(entries@ =~= entries_xml(books@, now@));
    assert(links@ =~= link_xml("self"@, "/opds"@));
    render_feed(&chars_of("urn:uuid:rubrica-library"), "Biblioteca Rúbrica", now, &links, &entries)
}

/// The feed of an author's books.
pub fn author_books_feed(author_id: i64, books: &Vec<BookListItem>, now: &str) -> (r: String)
    ensures
        r@ == author_books_feed_xml(author_id, books@, now@),
{
    let mut entries: Vec<char> = Vec::new();
    push_entries(&mut entries, books, now);
    let mut links: Vec<char> = Vec::new();
    push_link(&mut links, "self", &with_int("/opds/author/", author_id));
    push_link(&mut links, "start", &chars_of("/opds"));
    push_link(&mut links, "up", &chars_of("/opds/authors"));
    assert(entries@ =~= entries_xml(books@, now@));
    render_feed(&with_int("urn:rubrica:author:", author_id), "Libros del autor", now, &links, &entries)
}

/// The feed of a series' books.
pub fn series_books_feed(series_id: i64, books: &Vec<BookListItem>, now: &str) -> (r: String)
    ensures
        r@ == series_books_feed_xml(series_id, books@, now@),
{
    let mut entries: Vec<char> = Vec::new();
    push_entries(&mut entries, books, now);
    let mut links: Vec<char> = Vec::new();
    push_link(&mut links, "self", &with_int("/opds/series/", series_id));
    push_link(&mut links, "start", &chars_of("/opds"));
    push_link(&mut links, "up", &chars_of("/opds/series"));
    assert(entries@ =~= entries_xml(books@, now@));
    render_feed(&with_int("urn:rubrica:series:", series_id), "Libros de la serie", now, &links, &entries)
}

/// Appends the navigation entry of an author or a series.
fn push_nav_entry(out: &mut Vec<char>, kind: &str, id: i64, name: &str, now: &str)
    ensures
        final(out)@ == old(out)@ + nav_entry_xml(kind@, id, name@, now@),
{
    let ghost o = out@;
    extend_str(out, "  <entry>\n    <title>");
    push_escaped(out, name);
    extend_str(out, "</title>\n    <id>urn:rubrica:");
    extend_str(out, kind);
    extend_str(out, ":");
    push_int(out, id);
    extend_str(out, "</id>\n    <updated>");
    extend_str(out, now);
    extend_str(out, "</updated>\n    <link rel=\"subsection\" type=\"");
    extend_str(out, ACQUISITION_TYPE);
    extend_str(out, "\" href=\"/opds/");
    extend_str(out, kind);
    extend_str(out, "/");
    push_int(out, id);
    extend_str(out, "\" title=\"Libros de ");
    push_escaped(out, name);
    extend_str(out, "\"/>\n  </entry>\n");
    assert(out@ =~= o + nav_entry_xml(kind@, id, name@, now@));
}

/// The navigation feed of authors.
pub fn authors_feed(authors: &Vec<AuthorStats>, now: &str) -> (r: String)
    ensures
        r@ == authors_feed_xml(authors@, now@),
{
    let mut entries: Vec<char> = Vec::new();
    let mut i: usize = 0;
    while i < authors.len()
        invariant
            i <= authors.len(),
            entries@ == author_entries_xml(authors@.take(i as int), now@),
        decreases authors.len() - i,
    {
        proof {
            assert(authors@.take(i + 1).drop_last() =~= authors@.take(i as int));
            assert(authors@.take(i + 1).last() == authors@[i as int]);
        }
        push_nav_entry(&mut entries, "author", authors[i].id, authors[i].name.as_str(), now);
        i += 1;
    }
    assert(authors@.take(authors.len() as int) =~= authors@);
    let mut links: Vec<char> = Vec::new();
    push_link(&mut links, "self", &chars_of("/opds/authors"));
    push_link(&mut links, "start", &chars_of("/opds"));
    assert(links@ =~= link_xml("self"@, "/opds/authors"@) + link_xml("start"@, "/opds"@));
    render_feed(&chars_of("urn:uuid:rubrica-authors"), "Autores", now, &links, &entries)
}

/// The navigation feed of series.
pub fn series_feed(series: &Vec<SeriesStats>, now: &str) -> (r: String)
    ensures
        r@ == series_feed_xml(series@, now@),
{
    let mut entries: Vec<char> = Vec::new();
    let mut i: usize = 0;
    while i < series.len()
        invariant
            i <= series.len(),
            entries@ == series_entries_xml(series@.take(i as int), now@),
        decreases series.len() - i,
    {
        proof {
            assert(series@.take(i + 1).drop_last() =~= series@.take(i as int));
            assert(series@.take(i + 1).last() == series@[i as int]);
        }
        push_nav_entry(&mut entries, "series", series[i].id, series[i].name.as_str(), now);
        i += 1;
    }
    assert(series@.take(series.len() as int) =~= series@);
    let mut links: Vec<char> = Vec::new();
    push_link(&mut links, "self", &chars_of("/opds/series"));
    push_link(&mut links, "start", &chars_of("/opds"));
    assert(links@ =~= link_xml("self"@, "/opds/series"@) + link_xml("start"@, "/opds"@));
    render_feed(&chars_of("urn:uuid:rubrica-series"), "Series", now, &links, &entries)
}

/// The cover of a card: the cover image, or a placeholder.
pub open spec fn card_cover(b: BookListItem) -> Seq<char> {
    if b.cover_href is Some {
        "<img src=\"/opds/cover/"@ + signed_decimal(b.id as int) + "\" alt=\""@ + escaped(b.title@)
            + "\" loading=\"lazy\"/>"@
    } else {
        "<div class=\"no-cover\">Sin portada</div>"@
    }
}

/// The series line of a card, if the book has a series name.
pub open spec fn card_series(b: BookListItem) -> Seq<char> {
    let series = match b.series_name {
        Some(s) => escaped(s@),
        None => Seq::empty(),
    };
    if series.len() == 0 {
        Seq::empty()
    } else {
        "<div class=\"series\">"@ + series + "</div>"@
    }
}

/// A card is made of its cover, its texts and its series line.
proof fn lemma_card_parts(b: BookListItem)
    ensures
        card_html(b) =~= "<div class=\"card\">\n  <div class=\"cover\">"@ + card_cover(b)
            + "</div>\n  <div class=\"info\">\n    <div class=\"title\">"@ + escaped(b.title@)
            + "</div>\n    <div class=\"author\">"@ + escaped(b.author_name@) + "</div>\n    "@
            + card_series(b) + "\n    <a class=\"download\" href=\"/opds/download/"@ + signed_decimal(
            b.id as int,
        ) + "\" download>Descargar EPUB</a>\n  </div>\n</div>\n"@,
{
}

fn push_card_cover(out: &mut Vec<char>, book: &BookListItem)
    ensures
        final(out)@ == old(out)@ + card_cover(*book),
{
    let ghost o = out@;
    if book.cover_href.is_some() {
        extend_str(out, "<img src=\"/opds/cover/");
        push_int(out, book.id);
        extend_str(out, "\" alt=\"");
        push_escaped(out, book.title.as_str());
        extend_str(out, "\" loading=\"lazy\"/>");
    } else {
        extend_str(out, "<div class=\"no-cover\">Sin portada</div>");
    }
    assert(out@ =~= o + card_cover(*book));
}

fn push_card_series(out: &mut Vec<char>, book: &BookListItem)
    ensures
        final(out)@ == old(out)@ + card_series(*book),
{
    let ghost o = out@;
    let mut series_e: Vec<char> = Vec::new();
    match &book.series_name {
        Some(s) => {
            push_escaped(&mut series_e, s.as_str());
        },
        None => {},
    }
    if series_e.len() > 0 {
        extend_str(out, "<div class=\"series\">");
        extend_chars(out, &series_e);
        extend_str(out, "</div>");
    }
    assert(out@ =~= o + card_series(*book));
}

/// Appends the card of a book.
fn push_card(out: &mut Vec<char>, book: &BookListItem)
    ensures
        final(out)@ == old(out)@ + card_html(*book),
{
    let ghost o = out@;
    extend_str(out, "<div class=\"card\">\n  <div class=\"cover\">");
    push_card_cover(out, book);
    extend_str(out, "</div>\n  <div class=\"info\">\n    <div class=\"title\">");
    push_escaped(out, book.title.as_str());
    extend_str(out, "</div>\n    <div class=\"author\">");
    push_escaped(out, book.author_name.as_str());
    extend_str(out, "</div>\n    ");
    push_card_series(out, book);
    extend_str(out, "\n    <a class=\"download\" href=\"/opds/download/");
    push_int(out, book.id);
    extend_str(out, "\" download>Descargar EPUB</a>\n  </div>\n</div>\n");
    proof {
        lemma_card_parts(*book);
    }
    assert(out@ =~= o + card_html(*book));
}

/// The browser page of the library: a card per book and the book count.
pub fn browser_page(books: &Vec<BookListItem>) -> (r: String)
    ensures
        r@ == browser_html(books@),
{
    let mut out: Vec<char> = Vec::new();
    extend_str(&mut out, BROWSER_HEAD);
    let ghost o = out@;
    let mut i: usize = 0;
    while i < books.len()
        invariant
            i <= books.len(),
            out@ == o + cards_html(books@.take(i as int)),
        decreases books.len() - i,
    {
        proof {
            assert(books@.take(i + 1).drop_last() =~= books@.take(i as int));
            assert(books@.take(i + 1).last() == books@[i as int]);
        }
        push_card(&mut out, &books[i]);
        assert(out@ =~= o + cards_html(books@.take(i + 1)));
        i += 1;
    }
    assert(books@.take(books.len() as int) =~= books@);
    extend_str(&mut out, BROWSER_MIDDLE);
    let d = decimal_chars(books.len() as u64);
    extend_chars(&mut out, &d);
    extend_str(&mut out, BROWSER_TAIL);
    assert(out@ =~= browser_html(books@));
    string_of(&out)
}

/// The `Content-Disposition` of a download: an attachment named after the
/// book's file (`book.epub` when the path has no file name).
pub fn download_disposition(file_name: Option<&str>) -> (r: String)
    ensures
        r@ == "attachment; filename=\""@ + match file_name {
            Some(f) => f@,
            None => "book.epub"@,
        } + "\""@,
{
    let name: &str = match file_name {
        Some(f) => f,
        None => "book.epub",
    };
    let mut v: Vec<char> = Vec::new();
    extend_str(&mut v, "attachment; filename=\"");
    extend_str(&mut v, name);
    extend_str(&mut v, "\"");
    string_of(&v)
}

/// The `Content-Disposition` of the download of the book stored at `path`:
/// an attachment named after the path's file name.
pub fn attachment_for(path: &str) -> (r: String)
    ensures
        r@ == "attachment; filename=\""@ + match crate::sync::file_name_of(path@) {
            Some(f) => f,
            None => "book.epub"@,
        } + "\""@,
{
    let name = crate::sync::file_name(path);
    match &name {
        Some(n) => download_disposition(Some(n.as_str())),
        None => download_disposition(None),
    }
}

} // verus!
