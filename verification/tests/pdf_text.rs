use rubrica::pdf::assembler::{markdown_to_xhtml, Assembler, FragmentCheck};
use rubrica::pdf::extractor::PdfExtractor;
use rubrica::pdf::layout::{
    body_font_size, classify_line, detect_running_elements, extract_number, is_drop_cap_remainder,
    join_to_paragraph, push_chapter, reconstruct_chapters, sanitize_xml, strip_doctype, text_area,
    LayoutLine, LayoutPage, LineKind, RunningZone, TextElement,
};
use rubrica::pdf::pipeline::{chapters_to_xhtml, plain_text_fragment, structure_step, uses_layout_chapters};
use rubrica::pdf::semantic::SemanticStructurer;
use rubrica::pdf::{Chapter, ExtractedPage, ExtractionSource, PdfPipelineError, PipelineStatus};

fn chars(s: &str) -> Vec<char> {
    s.chars().collect()
}

#[test]
fn structure_renders_each_kind_of_block() {
    let text = "Hola  mundo\ncon   saltos\n\n—Dijo él.\n\n* * *\n\n\"Cita\"";
    assert_eq!(
        SemanticStructurer::structure(text),
        "<p>Hola mundo con saltos</p>\n<p class=\"dialogue\">—Dijo él.</p>\n<hr/>\n<blockquote><p>&quot;Cita&quot;</p></blockquote>\n"
    );
}

#[test]
fn structure_skips_blank_blocks() {
    assert_eq!(SemanticStructurer::structure("\n\n   \n\n"), "");
    assert_eq!(SemanticStructurer::structure("***"), "<hr/>\n");
}

#[test]
fn structure_chapter_escapes_title_lines() {
    let c = Chapter { number: Some(1), title: "Capítulo 1\n  El <inicio>".to_string(), body: "Texto & más".to_string() };
    assert_eq!(
        SemanticStructurer::structure_chapter(&c),
        "<h1>Capítulo 1<br/>El &lt;inicio&gt;</h1>\n<p>Texto &amp; más</p>\n"
    );
    let untitled = Chapter { number: None, title: String::new(), body: "x".to_string() };
    assert_eq!(SemanticStructurer::structure_chapter(&untitled), "<p>x</p>\n");
}

#[test]
fn common_words_ignore_case() {
    assert!(SemanticStructurer::is_common_word("The"));
    assert!(SemanticStructurer::is_common_word("MÁS"));
    assert!(!SemanticStructurer::is_common_word("dragón"));
}

#[test]
fn markdown_headings_paragraphs_and_inline() {
    let md = "# Título\nsegunda línea\n\nUn **fuerte** y *suave* a < b\n\n## Sub\n\n### Tres";
    assert_eq!(
        markdown_to_xhtml(md),
        "<h1>Título</h1>\n<p>segunda línea</p>\n<p>Un <strong>fuerte</strong> y <em>suave</em> a &lt; b</p>\n<h2>Sub</h2>\n<h3>Tres</h3>\n"
    );
}

#[test]
fn markdown_heading_markers_repeat() {
    assert_eq!(markdown_to_xhtml("# # Doble"), "<h1>Doble</h1>\n");
}

#[test]
fn markdown_detection_looks_at_first_text_line() {
    assert!(!Assembler::looks_like_markdown("\n\n  <p>x</p>"));
    assert!(Assembler::looks_like_markdown("\n  # T"));
    assert!(!Assembler::looks_like_markdown("   \n "));
}

#[test]
fn fences_and_rules_are_stripped() {
    assert_eq!(Assembler::strip_markdown_fences("```xml\n<p>Hola</p>\n```"), "<p>Hola</p>");
    assert_eq!(Assembler::strip_markdown_fences("  <p>a</p>\n---\n<p>b</p> "), "<p>a</p>\n\n<p>b</p>");
}

#[test]
fn emergency_cleanup_closes_tags_and_removes_scripts() {
    assert_eq!(Assembler::emergency_heuristic_cleanup("<p>Hola <em>x"), "<p>Hola <em>x</p>\n</em>\n");
    assert_eq!(
        Assembler::emergency_heuristic_cleanup("<div onclick=\"evil()\">a</div><script>x</script>"),
        "<div>a</div>"
    );
}

#[test]
fn validation_accepts_converts_and_reports() {
    assert_eq!(Assembler::validate_and_repair("<p>ok</p>", 0), Ok("<p>ok</p>".to_string()));
    assert_eq!(
        Assembler::validate_and_repair("# T\n\ntexto", 1),
        Ok("<h1>T</h1>\n<p>texto</p>\n".to_string())
    );
    let err = Assembler::validate_and_repair("<p>broken", 3).unwrap_err();
    assert!(err.starts_with("Chunk 3 XML parse error: "), "{}", err);
}

#[test]
fn fragment_checks() {
    match Assembler::check_fragment("<p>ok</p>", 0) {
        FragmentCheck::Validated(c) => assert_eq!(c, "<p>ok</p>"),
        other => panic!("{:?}", other),
    }
    match Assembler::check_fragment("<p>abierto", 2) {
        FragmentCheck::Recovered(c) => assert_eq!(c, "<p>abierto</p>\n"),
        other => panic!("{:?}", other),
    }
    assert!(matches!(Assembler::check_fragment("<x></y>", 0), FragmentCheck::Skipped));
}

#[test]
fn plan_keeps_order_and_skips_broken() {
    let fragments = vec!["<p>a</p>".to_string(), "<p>b".to_string(), "<x></y>".to_string()];
    let docs = Assembler::plan_documents(&fragments).unwrap();
    assert_eq!(docs.len(), 2);
    assert_eq!(docs[0].doc_id, "chunk_000");
    assert_eq!(docs[0].content, "<p>a</p>");
    assert!(!docs[0].recovered);
    assert!(matches!(docs[0].status(), PipelineStatus::XmlValidated { chunk_index: 0 }));
    assert_eq!(docs[1].doc_id, "chunk_001");
    assert_eq!(docs[1].content, "<p>b</p>\n");
    assert!(matches!(docs[1].status(), PipelineStatus::XmlHeuristicRecovered { chunk_index: 1 }));
}

#[test]
fn plan_fails_when_nothing_validates() {
    match Assembler::plan_documents(&vec!["<x></y>".to_string()]) {
        Err(PdfPipelineError::AssemblyFailed(m)) => assert_eq!(m, "Ningún fragmento pasó la validación XML"),
        other => panic!("{:?}", other),
    }
}

#[test]
fn doc_ids_are_zero_padded() {
    assert_eq!(Assembler::doc_id(7), "chunk_007");
    assert_eq!(Assembler::doc_id(42), "chunk_042");
    assert_eq!(Assembler::doc_id(1234), "chunk_1234");
}

#[test]
fn epub_file_name_is_sanitized() {
    assert_eq!(Assembler::epub_file_name("Mi libro: 1/2?"), "Mi libro 12.epub");
}

#[test]
fn archive_entries() {
    assert_eq!(Assembler::archive_entry_name("mimetype", "mimetype"), None);
    assert_eq!(Assembler::archive_entry_name("x", ".gutenair.db-wal"), None);
    assert_eq!(Assembler::archive_entry_name("ch.xhtml", "OEBPS\\ch.xhtml"), Some("OEBPS/ch.xhtml".to_string()));
}

#[test]
fn sha256_of_known_inputs() {
    assert_eq!(
        Assembler::compute_sha256(b"abc"),
        "ba7816bf8f01cfea414140de5dae2223b00361a396177a9cb410ff61f20015ad"
    );
    assert_eq!(
        Assembler::compute_sha256(b""),
        "e3b0c44298fc1c149afbf4c8996fb92427ae41e4649b934ca495991b7852b855"
    );
}

#[test]
fn pages_split_at_form_feeds() {
    let pages = PdfExtractor::split_into_pages("a\x0Cb\x0C");
    let texts: Vec<&str> = pages.iter().map(|p| p.text.as_str()).collect();
    assert_eq!(texts, vec!["a", "b", ""]);
    let numbers: Vec<usize> = pages.iter().map(|p| p.page_number).collect();
    assert_eq!(numbers, vec![1, 2, 3]);
    assert!(pages.iter().all(|p| p.source == ExtractionSource::NativeText));
}

#[test]
fn pages_without_form_feeds() {
    assert_eq!(PdfExtractor::split_into_pages("").len(), 1);
    assert_eq!(PdfExtractor::split_into_pages(&"x".repeat(499)).len(), 1);
    let long = "y".repeat(7000);
    let pages = PdfExtractor::split_into_pages(&long);
    let sizes: Vec<usize> = pages.iter().map(|p| p.text.chars().count()).collect();
    assert_eq!(sizes, vec![3000, 3000, 1000]);
    let rejoined: String = pages.iter().map(|p| p.text.as_str()).collect();
    assert_eq!(rejoined, long);
}

#[test]
fn readable_text_needs_a_non_blank_line() {
    assert!(!PdfExtractor::has_readable_text("  \n\t\n"));
    assert!(PdfExtractor::has_readable_text("\n x \n"));
}

#[test]
fn chapter_fragments_report_their_byte_length() {
    let chapters = vec![Chapter { number: None, title: String::new(), body: "á".to_string() }];
    let (fragments, statuses) = chapters_to_xhtml(&chapters);
    assert_eq!(fragments, vec!["<p>á</p>\n".to_string()]);
    assert!(matches!(statuses[0], PipelineStatus::ChunkProcessed { chunk_index: 0, output_chars: 10 }));
}

#[test]
fn plain_text_fallback() {
    let page = |n: usize, t: &str| ExtractedPage { page_number: n, text: t.to_string(), source: ExtractionSource::NativeText };
    match plain_text_fragment(&vec![page(1, "  "), page(2, "\n")]) {
        Err(PdfPipelineError::ExtractionFailed(m)) => assert_eq!(
            m,
            "No se pudo extraer texto del PDF. El archivo puede ser un PDF escaneado que requiere OCR."
        ),
        other => panic!("{:?}", other),
    }
    let (x, st) = plain_text_fragment(&vec![page(1, "Hola"), page(2, "mundo")]).unwrap();
    assert_eq!(x, "<p>Hola mundo</p>\n");
    assert!(matches!(st, PipelineStatus::ChunkProcessed { chunk_index: 0, output_chars: 18 }));
}

fn line(text: &str, kind: LineKind, near: bool, fills: bool) -> LayoutLine {
    LayoutLine {
        text: text.to_string(),
        font_size: 10,
        ends_sentence: text.ends_with('.'),
        kind,
        near_previous_body: near,
        fills_width: fills,
    }
}

#[test]
fn chapters_from_headings_and_paragraphs() {
    let pages = vec![
        LayoutPage {
            number: 1,
            lines: vec![
                line("Capítulo 1", LineKind::ChapterHeading, false, false),
                line("Era una vez un", LineKind::Body, false, true),
                line("cuento.", LineKind::Body, true, false),
            ],
        },
        LayoutPage { number: 2, lines: vec![line("Otro párrafo.", LineKind::Body, false, false)] },
    ];
    let chapters = reconstruct_chapters(&pages);
    assert_eq!(chapters.len(), 1);
    assert_eq!(chapters[0].number, Some(1));
    assert_eq!(chapters[0].title, "Capítulo 1");
    assert_eq!(chapters[0].body, "Era una vez un cuento.\n\nOtro párrafo.");
}

#[test]
fn chapters_from_drop_caps_and_continued_pages() {
    let pages = vec![
        LayoutPage {
            number: 1,
            lines: vec![
                line("T", LineKind::DropCap, false, false),
                line("he quick brown fox jumps over the", LineKind::Body, false, true),
            ],
        },
        LayoutPage { number: 2, lines: vec![line("lazy dog.", LineKind::Body, false, false)] },
    ];
    let chapters = reconstruct_chapters(&pages);
    assert_eq!(chapters.len(), 1);
    assert_eq!(chapters[0].number, Some(1));
    assert_eq!(chapters[0].title, "");
    assert_eq!(chapters[0].body, "The quick brown fox jumps over the lazy dog.");
}

#[test]
fn chapters_are_never_empty() {
    let pages = vec![LayoutPage { number: 1, lines: vec![line("3", LineKind::Running, false, false)] }];
    assert!(reconstruct_chapters(&pages).is_empty());
}

#[test]
fn paragraph_joining() {
    let mut b = chars("pala-");
    join_to_paragraph(&mut b, &chars("bra"));
    assert_eq!(b, chars("palabra"));
    let mut d = chars("T");
    join_to_paragraph(&mut d, &chars("he"));
    assert_eq!(d, chars("The"));
    let mut e = chars("fin—");
    join_to_paragraph(&mut e, &chars("sigue"));
    assert_eq!(e, chars("fin— sigue"));
    assert!(is_drop_cap_remainder(&chars("Á"), &chars("rbol")));
    assert!(!is_drop_cap_remainder(&chars("AB"), &chars("c")));
}

#[test]
fn pushing_chapters_trims_and_skips_empty() {
    let mut cs: Vec<Chapter> = Vec::new();
    push_chapter(&mut cs, None, Vec::new(), chars("  \n "));
    assert!(cs.is_empty());
    push_chapter(&mut cs, Some(2), chars("T"), chars("  cuerpo \n"));
    assert_eq!(cs.len(), 1);
    assert_eq!(cs[0].body, "cuerpo");
}

#[test]
fn chapter_numbers() {
    assert_eq!(extract_number("Capítulo 12: x"), Some(12));
    assert_eq!(extract_number("Sin número"), None);
    assert_eq!(extract_number("99999999999"), None);
}

#[test]
fn xml_cleanup() {
    assert_eq!(sanitize_xml("a\u{0}b\u{FFFE}c\td"), "abc\td");
    assert_eq!(
        strip_doctype("<?xml?>\n<!DOCTYPE pdf2xml SYSTEM \"x.dtd\">\n<pdf2xml/>"),
        "<?xml?>\n<pdf2xml/>"
    );
    assert_eq!(strip_doctype("<a/>"), "<a/>");
}

#[test]
fn line_classification() {
    let none: Vec<String> = Vec::new();
    let running = vec!["Mi Libro".to_string()];
    assert_eq!(classify_line(&chars("12"), 10, 13, true, &none), LineKind::Running);
    assert_eq!(classify_line(&chars("Mi Libro"), 10, 13, true, &running), LineKind::Running);
    assert_eq!(classify_line(&chars("texto"), 10, 13, false, &none), LineKind::Body);
    assert_eq!(classify_line(&chars("* * *"), 14, 13, false, &none), LineKind::SceneBreak);
    assert_eq!(classify_line(&chars("A"), 20, 13, false, &none), LineKind::DropCap);
    assert_eq!(classify_line(&chars("Capítulo"), 20, 13, false, &none), LineKind::ChapterHeading);
}

#[test]
fn document_measures() {
    let el = |t: &str, s: u32| TextElement { text: t.to_string(), font_size: s };
    assert_eq!(body_font_size(&vec![el("abcd", 10), el("xy", 12), el("z", 10)]), 10);
    assert_eq!(text_area(&vec![100, 100, 120], &vec![500, 480, 500]), (100, 500));
    assert_eq!(text_area(&vec![300], &vec![350]), (300, 400));
}

#[test]
fn running_headers_repeat_on_close_pages() {
    let zone = |n: u32, ts: &[&str]| RunningZone { page_number: n, texts: ts.iter().map(|t| t.to_string()).collect() };
    let zones = vec![
        zone(1, &["Título del libro", "1"]),
        zone(2, &["Título del libro ", "Capítulo"]),
        zone(3, &["Título del libro"]),
        zone(20, &["Capítulo"]),
    ];
    let running = detect_running_elements(&zones);
    assert_eq!(running, vec!["Título del libro".to_string()]);
}

fn chapter_triples(cs: &[Chapter]) -> Vec<(Option<u32>, String, String)> {
    cs.iter().map(|c| (c.number, c.title.clone(), c.body.clone())).collect()
}

#[test]
fn running_lines_never_reach_a_chapter() {
    let with_running = vec![
        LayoutPage {
            number: 1,
            lines: vec![
                line("EL LIBRO", LineKind::Running, false, false),
                line("Capítulo 1", LineKind::ChapterHeading, false, false),
                line("Era una vez un cuento que", LineKind::Body, false, true),
                line("12", LineKind::Running, false, false),
            ],
        },
        LayoutPage {
            number: 2,
            lines: vec![
                line("EL LIBRO", LineKind::Running, false, false),
                line("seguía.", LineKind::Body, false, false),
            ],
        },
    ];
    let without: Vec<LayoutPage> = with_running
        .iter()
        .map(|p| LayoutPage {
            number: p.number,
            lines: p.lines.iter().filter(|l| l.kind != LineKind::Running).cloned().collect(),
        })
        .collect();
    let a = chapter_triples(&reconstruct_chapters(&with_running));
    let b = chapter_triples(&reconstruct_chapters(&without));
    assert_eq!(a, b);
    assert_eq!(a, vec![(Some(1), "Capítulo 1".to_string(), "Era una vez un cuento que seguía.".to_string())]);
}

#[test]
fn markdown_blocks_convert_independently() {
    for (a, b) in [("# Uno\ntexto", "dos **b**"), ("uno\n", "\ndos"), ("", "tres"), ("a\n\n", "b")] {
        let joined = format!("{}\n\n{}", a, b);
        assert_eq!(markdown_to_xhtml(&joined), markdown_to_xhtml(a) + &markdown_to_xhtml(b));
    }
}

#[test]
fn structure_blocks_convert_independently() {
    for (a, b) in [("—Hola.", "* * *"), ("uno\n", "\n\ndos"), ("\"cita\"", "")] {
        let joined = format!("{}\n\n{}", a, b);
        assert_eq!(
            SemanticStructurer::structure(&joined),
            SemanticStructurer::structure(a) + &SemanticStructurer::structure(b)
        );
    }
}

const LAYOUT_XML: &str = "<?xml version=\"1.0\" encoding=\"UTF-8\"?>
<!DOCTYPE pdf2xml SYSTEM \"pdf2xml.dtd\">
<pdf2xml producer=\"poppler\" version=\"23.02.0\">
<page number=\"1\" position=\"absolute\" top=\"0\" left=\"0\" height=\"1262\" width=\"892\">
\t<fontspec id=\"0\" size=\"12\" family=\"Times\" color=\"#000000\"/>
<text top=\"100\" left=\"80\" width=\"300\" height=\"15\" font=\"0\">Hola <b>mundo</b></text>
<text top=\"120\" left=\"80\" width=\"300\" height=\"15\" font=\"9\">sin fuente</text>
<text top=\"140\" left=\"80\" width=\"300\" height=\"15\" font=\"0\">   </text>
</page>
<page number=\"2\" height=\"1262\">
<text top=\"90\" left=\"80\" width=\"30\" height=\"15\" font=\"0\">Dos</text>
<fontspec id=\"0\" size=\"14\"/>
</page>
</pdf2xml>
";

#[test]
fn layout_pages_read_from_the_xml() {
    let pages = rubrica::pdf::layout_xml::layout_pages(LAYOUT_XML).unwrap();
    assert_eq!(pages.len(), 2);
    assert_eq!((pages[0].number, pages[0].width.as_str(), pages[0].height.as_str()), (1, "892", "1262"));
    assert_eq!(pages[0].texts.len(), 1);
    let t = &pages[0].texts[0];
    assert_eq!(
        (t.top.as_str(), t.left.as_str(), t.width.as_str(), t.height.as_str(), t.font_size, t.text.as_str()),
        ("100", "80", "300", "15", 12, "Hola mundo")
    );
    assert_eq!((pages[1].number, pages[1].width.as_str()), (2, ""));
    assert_eq!(pages[1].texts.len(), 1);
    assert_eq!((pages[1].texts[0].font_size, pages[1].texts[0].text.as_str()), (14, "Dos"));
}

#[test]
fn layout_pages_refuse_bad_or_empty_xml() {
    match rubrica::pdf::layout_xml::layout_pages("<pdf2xml><page></pdf2xml>") {
        Err(PdfPipelineError::ExtractionFailed(m)) => assert!(m.starts_with("XML: ")),
        other => panic!("{:?}", other),
    }
    match rubrica::pdf::layout_xml::layout_pages("<pdf2xml>\n</pdf2xml>") {
        Err(PdfPipelineError::ExtractionFailed(m)) => assert_eq!(m, "XML sin páginas con texto"),
        other => panic!("{:?}", other),
    }
}

#[test]
fn a_doctype_line_changes_no_page() {
    let doc = "<pdf2xml>\n<page number=\"3\" width=\"10\">\n<fontspec id=\"1\" size=\"9\"/>\n<text top=\"1\" font=\"1\">Tres</text>\n</page>\n</pdf2xml>";
    let with = format!("<!DOCTYPE pdf2xml SYSTEM \"pdf2xml.dtd\">\n{}", doc);
    let summary = |x: &str| -> Vec<(u32, String, Vec<(String, u32, String)>)> {
        rubrica::pdf::layout_xml::layout_pages(x)
            .unwrap()
            .into_iter()
            .map(|p| (p.number, p.width, p.texts.into_iter().map(|t| (t.top, t.font_size, t.text)).collect()))
            .collect()
    };
    assert_eq!(summary(&with), summary(doc));
    assert_eq!(summary(doc), vec![(3, "10".to_string(), vec![("1".to_string(), 9, "Tres".to_string())])]);
}

#[test]
fn layout_chapters_used_only_when_found() {
    let one = vec![Chapter { number: None, title: String::new(), body: "x".to_string() }];
    assert!(uses_layout_chapters(&Ok(one)));
    assert!(!uses_layout_chapters(&Ok(vec![])));
    assert!(!uses_layout_chapters(&Err(PdfPipelineError::ExtractionFailed("XML: x".to_string()))));
}

#[test]
fn overlapping_emphasis_stays_nested() {
    assert_eq!(markdown_to_xhtml("*a **b* c**"), "<p>*a <strong>b* c</strong></p>\n");
    assert_eq!(markdown_to_xhtml("**a *b* c**"), "<p><strong>a <em>b</em> c</strong></p>\n");
    assert_eq!(markdown_to_xhtml("*x **a** y*"), "<p><em>x <strong>a</strong> y</em></p>\n");
    assert_eq!(markdown_to_xhtml("**sin cierre"), "<p>**sin cierre</p>\n");
    assert_eq!(markdown_to_xhtml("a * b"), "<p>a * b</p>\n");
}

#[test]
fn markdown_output_parses_as_xml() {
    let inputs = [
        "*a **b* c**",
        "# T *x*\n**y *z** w*\n\nuno *dos **tres* cuatro** cinco",
        "***a***  ** * ** *",
        "<b>&amp; \"q\"</b> *i* **b**",
    ];
    for md in inputs {
        let doc = format!("<div>{}</div>", markdown_to_xhtml(md));
        assert!(roxmltree::Document::parse(&doc).is_ok(), "not well formed: {}", doc);
    }
}

#[test]
fn structuring_prefers_layout_chapters_then_plain_text() {
    let page = |n: usize, t: &str| ExtractedPage { page_number: n, text: t.to_string(), source: ExtractionSource::NativeText };
    let chapters = vec![Chapter { number: Some(1), title: "Uno".to_string(), body: "Texto.".to_string() }];
    let read = Ok(chapters);
    match structure_step(&read, None) {
        Some(Ok((fs, sts))) => {
            assert_eq!(fs, vec!["<h1>Uno</h1>\n<p>Texto.</p>\n".to_string()]);
            assert_eq!(sts.len(), 1);
        }
        other => panic!("{:?}", other),
    }
    let empty: Result<Vec<Chapter>, PdfPipelineError> = Ok(vec![]);
    assert!(structure_step(&empty, None).is_none());
    let failed: Result<Vec<Chapter>, PdfPipelineError> = Err(PdfPipelineError::ExtractionFailed("XML: x".to_string()));
    assert!(structure_step(&failed, None).is_none());
    match structure_step(&failed, Some(&vec![page(1, "Hola")])) {
        Some(Ok((fs, _))) => assert_eq!(fs, vec!["<p>Hola</p>\n".to_string()]),
        other => panic!("{:?}", other),
    }
    match structure_step(&empty, Some(&vec![page(1, " ")])) {
        Some(Err(PdfPipelineError::ExtractionFailed(m))) => assert!(m.starts_with("No se pudo extraer texto")),
        other => panic!("{:?}", other),
    }
}

#[test]
fn doctype_lines_anywhere_change_no_page() {
    let dropped: String = LAYOUT_XML
        .lines()
        .filter(|l| !l.trim_start().starts_with("<!DOCTYPE"))
        .collect::<Vec<_>>()
        .join("\n");
    let summary = |x: &str| -> Vec<(u32, usize, Vec<String>)> {
        rubrica::pdf::layout_xml::layout_pages(x)
            .unwrap()
            .into_iter()
            .map(|p| (p.number, p.texts.len(), p.texts.into_iter().map(|t| t.text).collect()))
            .collect()
    };
    assert_eq!(summary(&dropped), summary(LAYOUT_XML));
}
