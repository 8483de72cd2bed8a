use rubrica::gutencore::GutenAdapter;
use rubrica::pipeline::{
    CoreMetadata, CoverImage, ImportAction, ImportEvent, ImportStage, ImportState, ImportStatus, Pipeline,
};

const OPF: &str = "<package xmlns=\"http://www.idpf.org/2007/opf\" xmlns:dc=\"http://purl.org/dc/elements/1.1/\"><metadata><dc:creator>  Jorge Luis Borges </dc:creator><meta property=\"rubrica:series\">  Saga  </meta><meta property=\"rubrica:progress\">p12</meta><meta property=\"rubrica:series\">Saga 2</meta></metadata></package>";

fn core_meta(series: Option<&str>) -> CoreMetadata {
    CoreMetadata {
        title: "Ficciones".to_string(),
        author: None,
        language: "es".to_string(),
        identifier: "urn:isbn:1".to_string(),
        series: series.map(|s| s.to_string()),
    }
}

#[test]
fn import_metadata_prefers_the_last_rubrica_meta() {
    let cover = CoverImage { href: "c.jpg".to_string(), media_type: "image/jpeg".to_string() };
    let m = Pipeline::import_metadata(&core_meta(Some("Core")), Some(OPF), Some(&cover));
    assert_eq!(m.title, "Ficciones");
    assert_eq!(m.author, "Unknown");
    assert_eq!(m.series, Some("Saga 2".to_string()));
    assert_eq!(m.progress, Some("p12".to_string()));
    assert_eq!(m.cover_href, Some("c.jpg".to_string()));
    assert_eq!(m.cover_media_type, Some("image/jpeg".to_string()));
}

#[test]
fn import_metadata_without_a_readable_opf() {
    let m = Pipeline::import_metadata(&core_meta(Some("Core")), Some("<broken"), None);
    assert_eq!(m.series, Some("Core".to_string()));
    assert_eq!(m.progress, None);
    assert_eq!(m.cover_href, None);
    let n = Pipeline::import_metadata(&core_meta(None), None, None);
    assert_eq!(n.series, None);
}

fn state(series: Option<&str>) -> ImportState {
    let meta = Pipeline::import_metadata(&core_meta(series), None, None);
    ImportState::new("/in/f.epub".to_string(), "abc123".to_string(), meta)
}

#[test]
fn a_known_hash_is_a_duplicate() {
    let (s, a) = Pipeline::import_step(state(None), ImportEvent::Start);
    assert!(matches!(a, ImportAction::FindByHash { ref hash } if hash == "abc123"));
    let (s, a) = Pipeline::import_step(s, ImportEvent::HashLookup(Some(41)));
    assert_eq!(s.stage, ImportStage::Finished);
    assert!(matches!(a, ImportAction::Finish(ImportStatus::Duplicate { existing_id: 41 })));
}

#[test]
fn a_new_book_goes_through_every_step() {
    let (s, _) = Pipeline::import_step(state(Some("Saga")), ImportEvent::Start);
    let (s, a) = Pipeline::import_step(s, ImportEvent::HashLookup(None));
    assert!(matches!(a, ImportAction::UpsertAuthor { ref name } if name == "Unknown"));
    let (s, a) = Pipeline::import_step(s, ImportEvent::AuthorId(5));
    assert!(matches!(a, ImportAction::UpsertSeries { ref name } if name == "Saga"));
    let (s, a) = Pipeline::import_step(s, ImportEvent::SeriesId(6));
    match a {
        ImportAction::InsertBook(b) => {
            assert_eq!((b.author_id, b.series_id), (5, Some(6)));
            assert_eq!(b.original_path, "/in/f.epub");
            assert_eq!(b.current_path, "/in/f.epub");
            assert!(!b.is_normalized);
            assert_eq!(b.file_hash, "abc123");
        }
        other => panic!("{:?}", other),
    }
    let (s, a) = Pipeline::import_step(s, ImportEvent::BookId(77));
    assert!(matches!(a, ImportAction::AddBookHash { book_id: 77, ref hash } if hash == "abc123"));
    let (s, a) = Pipeline::import_step(s, ImportEvent::Done);
    assert!(matches!(a, ImportAction::InsertFts { book_id: 77, ref title, ref author } if title == "Ficciones" && author == "Unknown"));
    let (s, a) = Pipeline::import_step(s, ImportEvent::Done);
    assert_eq!(s.stage, ImportStage::Finished);
    assert!(matches!(a, ImportAction::Finish(ImportStatus::Imported)));
}

#[test]
fn a_book_without_series_skips_that_step() {
    let (s, _) = Pipeline::import_step(state(None), ImportEvent::Start);
    let (s, _) = Pipeline::import_step(s, ImportEvent::HashLookup(None));
    let (_, a) = Pipeline::import_step(s, ImportEvent::AuthorId(1));
    assert!(matches!(a, ImportAction::InsertBook(ref b) if b.series_id.is_none()));
}

#[test]
fn epub_metadata_reads_the_opf() {
    let c = core_meta(None);
    let m = GutenAdapter::epub_metadata(OPF, Some(&c)).unwrap();
    assert_eq!(m.author, "Jorge Luis Borges");
    assert_eq!(m.title, "Ficciones");
    assert_eq!(m.language, "es");
    assert_eq!(m.identifier, "urn:isbn:1");
    assert_eq!(m.series, Some("Saga 2".to_string()));
    assert_eq!(m.progress, Some("p12".to_string()));
    let bare = GutenAdapter::epub_metadata("<package xmlns=\"http://www.idpf.org/2007/opf\"/>", Some(&c)).unwrap();
    assert_eq!(bare.author, "Unknown");
    assert_eq!(bare.series, None);
}

#[test]
fn epub_metadata_errors() {
    let err = GutenAdapter::epub_metadata("<open", Some(&core_meta(None))).unwrap_err();
    assert!(err.starts_with("XML parse error: "), "{}", err);
    assert_eq!(GutenAdapter::epub_metadata(OPF, None).unwrap_err(), "No metadata loaded by GutenCore");
    assert!(GutenAdapter::is_directory_entry("OEBPS/"));
    assert!(!GutenAdapter::is_directory_entry("OEBPS/a.xhtml"));
}
