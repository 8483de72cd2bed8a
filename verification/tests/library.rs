use rubrica::analytics::Analytics;
use rubrica::config::{default_db_path, default_db_url, RubricaConfig};
use rubrica::library_db::{
    author_name_to_resolve, book_filter, book_update, default_aliases, file_removal, missing_default_aliases, series_deletion, sqlite_file_path, Alias,
    AuthorStats, BookListItem, SeriesDeletion, SeriesStats,
};
use rubrica::opds::{
    author_books_feed, authors_feed, browser_page, download_disposition, library_feed, opds_entry, series_feed,
};
use rubrica::organizer::Organizer;
use rubrica::sync::SyncSubsystem;

fn book(id: i64, title: &str, series: Option<&str>, cover: Option<&str>) -> BookListItem {
    BookListItem {
        id,
        title: title.to_string(),
        author_name: "Ana & Bo".to_string(),
        series_name: series.map(|s| s.to_string()),
        current_path: format!("/lib/{}.epub", id),
        is_normalized: false,
        date_added: 0,
        file_hash: None,
        cover_href: cover.map(|c| c.to_string()),
        cover_media_type: None,
    }
}

#[test]
fn filter_without_criteria_has_no_where_clause() {
    let f = book_filter(None, None, None, None, None);
    assert_eq!(f.where_clause, "");
    assert!(f.params.is_empty());
    assert!(f.ids.is_empty());
}

#[test]
fn filter_binds_each_criterion_in_order() {
    let ids = [3i64, 5, 8];
    let f = book_filter(Some(true), Some("Borges"), Some("Saga"), Some(&ids), Some("fav"));
    assert_eq!(
        f.where_clause,
        "WHERE b.is_normalized = ? AND a.name LIKE ? AND s.name LIKE ? AND EXISTS (SELECT 1 FROM book_tags bt2 JOIN tags t2 ON bt2.tag_id = t2.id WHERE bt2.book_id = b.id AND t2.name = ?) AND b.id IN (?,?,?)"
    );
    assert_eq!(f.params, vec!["1", "%Borges%", "%Saga%", "fav"]);
    assert_eq!(f.ids, vec![3, 5, 8]);
    let placeholders = f.where_clause.matches('?').count();
    assert_eq!(placeholders, f.params.len() + f.ids.len());
}

#[test]
fn filter_with_empty_id_list() {
    let f = book_filter(Some(false), None, None, Some(&[]), None);
    assert_eq!(f.where_clause, "WHERE b.is_normalized = ?");
    assert_eq!(f.params, vec!["0"]);
}

#[test]
fn book_updates() {
    assert_eq!(book_update(None, None, None), None);
    let (sql, params) = book_update(Some("Nuevo"), Some(-4), Some(9)).unwrap();
    assert_eq!(sql, "UPDATE books SET title = ?, author_id = ?, series_id = ? WHERE id = ?");
    assert_eq!(params, vec!["Nuevo", "-4", "9"]);
    assert_eq!(sql.matches('?').count(), params.len() + 1);
    let (sql2, params2) = book_update(None, None, Some(2)).unwrap();
    assert_eq!(sql2, "UPDATE books SET series_id = ? WHERE id = ?");
    assert_eq!(params2, vec!["2"]);
}

#[test]
fn series_deletion_rules() {
    assert_eq!(series_deletion(0, false), Ok(SeriesDeletion::Delete));
    assert_eq!(series_deletion(3, true), Ok(SeriesDeletion::UnlinkThenDelete));
    assert_eq!(
        series_deletion(3, false),
        Err("La serie tiene 3 libro(s) asociado(s). Usá --force para desvincularlos primero.".to_string())
    );
}

#[test]
fn file_removal_rules() {
    assert_eq!(file_removal(true, true, "/a.epub"), Some("/a.epub".to_string()));
    assert_eq!(file_removal(true, false, "/a.epub"), None);
    assert_eq!(file_removal(false, true, "/a.epub"), None);
}

#[test]
fn sqlite_paths_and_aliases() {
    assert_eq!(sqlite_file_path("sqlite:///home/u/library.db"), Some("/home/u/library.db".to_string()));
    assert_eq!(sqlite_file_path("sqlite::memory:"), None);
    let names: Vec<(String, String)> = default_aliases().into_iter().map(|a| (a.name, a.command)).collect();
    assert_eq!(
        names,
        vec![
            ("list".to_string(), "books".to_string()),
            ("search".to_string(), "books --fts".to_string()),
            ("ba".to_string(), "books --author".to_string()),
            ("bs".to_string(), "books --series".to_string()),
        ]
    );
}

#[test]
fn entry_of_a_plain_book() {
    assert_eq!(
        opds_entry(&book(7, "A <b>", None, None), "2024-01-01T00:00:00+00:00"),
        "  <entry>\n    <title>A &lt;b&gt;</title>\n    <id>urn:rubrica:book:7</id>\n    <author><name>Ana &amp; Bo</name></author>\n    <updated>2024-01-01T00:00:00+00:00</updated>\n    <link rel=\"http://opds-spec.org/acquisition\" type=\"application/epub+zip\" href=\"/opds/download/7\" title=\"Descargar EPUB\"/>\n  </entry>\n"
    );
}

#[test]
fn entry_with_series_and_cover() {
    let e = opds_entry(&book(2, "T", Some("S\"1"), Some("img/c.jpg")), "now");
    assert!(e.contains("  <dc:publisher>S&quot;1</dc:publisher>\n"));
    assert!(e.contains("    <link rel=\"http://opds-spec.org/image\" href=\"/opds/cover/2\" type=\"image/jpeg\"/>\n"));
    assert!(e.contains("<link rel=\"http://opds-spec.org/image/thumbnail\" href=\"/opds/cover/2\" type=\"image/jpeg\"/>"));
    let empty_series = opds_entry(&book(2, "T", Some(""), None), "now");
    assert!(!empty_series.contains("dc:publisher"));
}

#[test]
fn feeds() {
    let feed = library_feed(&vec![book(1, "Uno", None, None)], "NOW");
    assert!(feed.starts_with("<?xml version=\"1.0\" encoding=\"UTF-8\"?>\n<feed xmlns=\"http://www.w3.org/2005/Atom\""));
    assert!(feed.contains("  <id>urn:uuid:rubrica-library</id>\n  <title>Biblioteca Rúbrica</title>\n  <updated>NOW</updated>\n"));
    assert!(feed.contains("  <link rel=\"self\" href=\"/opds\" type=\"application/atom+xml;profile=opds-catalog;kind=acquisition\"/>\n  <entry>"));
    assert!(feed.ends_with("  </entry>\n\n</feed>"));
    let authors = authors_feed(&vec![AuthorStats { id: 4, name: "Zoé".to_string(), book_count: 2 }], "NOW");
    assert!(authors.contains("    <title>Zoé</title>\n    <id>urn:rubrica:author:4</id>"));
    assert!(authors.contains("href=\"/opds/author/4\" title=\"Libros de Zoé\"/>"));
    let by_author = author_books_feed(4, &vec![], "NOW");
    assert!(by_author.contains("<id>urn:rubrica:author:4</id>"));
    assert!(by_author.contains("<link rel=\"up\" href=\"/opds/authors\""));
    let series = series_feed(&vec![SeriesStats { id: -1, name: "S".to_string(), book_count: 0 }], "NOW");
    assert!(series.contains("<id>urn:rubrica:series:-1</id>"));
}

#[test]
fn browser_page_counts_books() {
    let page = browser_page(&vec![book(1, "Uno", Some("S"), Some("c.png")), book(2, "Dos", None, None)]);
    assert!(page.starts_with("<!DOCTYPE html>\n<html lang=\"es\">"));
    assert!(page.contains("<img src=\"/opds/cover/1\" alt=\"Uno\" loading=\"lazy\"/>"));
    assert!(page.contains("<div class=\"series\">S</div>"));
    assert!(page.contains("<div class=\"no-cover\">Sin portada</div>"));
    assert!(page.ends_with("<div class=\"stats\">2 libros</div>\n</body>\n</html>"));
}

#[test]
fn download_headers() {
    assert_eq!(download_disposition(Some("x.epub")), "attachment; filename=\"x.epub\"");
    assert_eq!(download_disposition(None), "attachment; filename=\"book.epub\"");
}

#[test]
fn config_aliases_read_back() {
    let mut c = RubricaConfig::new();
    c.insert_alias("l".to_string(), "books --long".to_string());
    c.insert_alias("s".to_string(), "series".to_string());
    c.insert_alias("l".to_string(), "books".to_string());
    assert_eq!(c.aliases.len(), 2);
    assert!(c.aliases.contains(&("l".to_string(), "books".to_string())));
    assert!(c.aliases.contains(&("s".to_string(), "series".to_string())));
    let from = RubricaConfig::from_aliases(&vec![Alias { name: "a".to_string(), command: "authors".to_string() }]);
    assert_eq!(from.aliases, vec![("a".to_string(), "authors".to_string())]);
}

#[test]
fn database_location() {
    assert_eq!(default_db_path(Some("/xdg"), Some("/home/u")), "/xdg/rubrica/library.db");
    assert_eq!(default_db_path(None, Some("/home/u")), "/home/u/.local/share/rubrica/library.db");
    assert_eq!(default_db_path(None, None), "./rubrica/library.db");
    assert_eq!(default_db_path(Some("/xdg/"), None), "/xdg/rubrica/library.db");
    assert_eq!(default_db_url("/d/library.db"), "sqlite:///d/library.db");
}

#[test]
fn metrics_and_health() {
    let m = Analytics::metrics_from_counts(3, None);
    assert_eq!((m.total_books, m.total_reading_time_secs), (3, 0));
    let h = Analytics::health_report(9, 2);
    assert_eq!((h.book_id, h.broken_links, h.orphan_anchors, h.css_discrepancies), (9, 2, 0, 0));
    let wrapped = Analytics::health_report(1, (u32::MAX as usize) + 3);
    assert_eq!(wrapped.broken_links, 2);
}

#[test]
fn organizer_rules() {
    assert_eq!(Organizer::missing_source_error("/x.epub"), "Archivo origen no existe: /x.epub");
    assert!(Organizer::removes_original("/a.epub", "/b/a.epub"));
    assert!(!Organizer::removes_original("/a.epub", "/a.epub"));
}

#[test]
fn the_same_path_written_differently_is_kept() {
    assert!(!Organizer::removes_original("a//b.epub", "a/b.epub"));
    assert!(!Organizer::removes_original("/lib/./x/b.epub", "/lib/x/b.epub"));
    assert!(!Organizer::removes_original("/lib/x/", "/lib/x"));
    assert!(Organizer::removes_original("./b.epub", "b.epub"));
    assert!(Organizer::removes_original("/b.epub", "b.epub"));
    assert!(Organizer::removes_original("/lib/x/b.epub", "/lib/y/b.epub"));
}

#[test]
fn mtp_copies() {
    assert_eq!(SyncSubsystem::books_dir("/media/kobo"), "/media/kobo/Books");
    let copies = SyncSubsystem::mtp_copies("/m/Books", &vec!["/lib/a.epub".to_string(), "/".to_string(), "b.epub".to_string()]);
    assert_eq!(
        copies,
        vec![
            ("/lib/a.epub".to_string(), "/m/Books/a.epub".to_string()),
            ("b.epub".to_string(), "/m/Books/b.epub".to_string()),
        ]
    );
    assert!(SyncSubsystem::is_reader_device("BOOX-onyx"));
    assert!(SyncSubsystem::is_reader_device("mtp:host=x"));
    assert!(!SyncSubsystem::is_reader_device("usb-disk"));
    assert_eq!(SyncSubsystem::missing_books_dir_error(), "Directorio /Books no encontrado en el dispositivo MTP");
}

#[test]
fn default_aliases_never_overwrite_the_users() {
    let existing = vec![Alias { name: "list".to_string(), command: "books --long".to_string() }];
    let added: Vec<(String, String)> =
        missing_default_aliases(&existing).into_iter().map(|a| (a.name, a.command)).collect();
    assert_eq!(
        added,
        vec![
            ("search".to_string(), "books --fts".to_string()),
            ("ba".to_string(), "books --author".to_string()),
            ("bs".to_string(), "books --series".to_string()),
        ]
    );
    assert_eq!(missing_default_aliases(&vec![]).len(), 4);
}

#[test]
fn author_name_only_without_an_id() {
    assert_eq!(author_name_to_resolve(None, Some("Borges")), Some("Borges"));
    assert_eq!(author_name_to_resolve(Some(3), Some("Borges")), None);
    assert_eq!(author_name_to_resolve(None, None), None);
}

#[test]
fn file_names_as_std_paths_give_them() {
    let cases = ["a/b.epub", "a/..", "..", "/", "", ".", "a/b/.", "foo//", "/x/./y.epub", "./z", "a/.../b", "c/d/"];
    for p in cases {
        let expected = std::path::Path::new(p).file_name().map(|n| n.to_string_lossy().to_string());
        assert_eq!(rubrica::sync::file_name(p), expected, "path {:?}", p);
    }
}
