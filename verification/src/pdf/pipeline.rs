//! The decisions of the PDF → EPUB pipeline between its extraction stages:
//! chapters to fragments, and the plain-text fallback.
use vstd::prelude::*;
use crate::pdf::extractor::{page_views, ExtractedPageView};
use crate::pdf::semantic::{chapter_xhtml, SemanticStructurer};
use crate::pdf::{chapter_views, Chapter, ExtractedPage, PdfPipelineError, PipelineStatus};
use crate::text::{chars_of, extend_str, join, string_of, trim, trim_chars};

verus! {

/// The number of UTF-8 bytes of a text (`str::len`).
pub open spec fn byte_len(s: Seq<char>) -> usize {
    vstd::utf8::encode_utf8(s).len() as usize
}

/// The XHTML fragments of chapters, one per chapter in order.
pub open spec fn chapter_fragments(cs: Seq<crate::pdf::ChapterView>) -> Seq<Seq<char>> {
    cs.map_values(|c: crate::pdf::ChapterView| chapter_xhtml(c.title, c.body))
}

/// The byte length of a string.
fn utf8_len(s: &String) -> (n: usize)
    ensures
        n == byte_len(s@),
{
    s.as_str().len()
}

/// Turns chapters into XHTML fragments, with the progress report of each
/// (its index and its length in bytes).
pub fn chapters_to_xhtml(chapters: &Vec<Chapter>) -> (r: (Vec<String>, Vec<PipelineStatus>))
    ensures
        r.0.len() == chapters.len(),
        r.1.len() == chapters.len(),
        forall|i: int|
            0 <= i < chapters.len() ==> {
                &&& #[trigger] r.0@[i]@ == chapter_xhtml(chapters@[i].title@, chapters@[i].body@)
                &&& r.1@[i] == PipelineStatus::ChunkProcessed {
                    chunk_index: i as usize,
                    output_chars: byte_len(r.0@[i]@),
                }
            },
{
    let mut fragments: Vec<String> = Vec::new();
    let mut statuses: Vec<PipelineStatus> = Vec::new();
    let mut i: usize = 0;
    while i < chapters.len()
        invariant
            i <= chapters.len(),
            fragments.len() == i,
            statuses.len() == i,
            forall|k: int|
                0 <= k < i ==> {
                    &&& #[trigger] fragments@[k]@ == chapter_xhtml(
                        chapters@[k].title@,
                        chapters@[k].body@,
                    )
                    &&& statuses@[k] == PipelineStatus::ChunkProcessed {
                        chunk_index: k as usize,
                        output_chars: byte_len(fragments@[k]@),
                    }
                },
        decreases chapters.len() - i,
    {
        let xhtml = SemanticStructurer::structure_chapter(&chapters[i]);
        let n = utf8_len(&xhtml);
        statuses.push(PipelineStatus::ChunkProcessed { chunk_index: i, output_chars: n });
        fragments.push(xhtml);
        i += 1;
    }
    (fragments, statuses)
}

/// The text of all pages, joined by line breaks.
pub open spec fn pages_text(ps: Seq<ExtractedPageView>) -> Seq<char> {
    join(ps.map_values(|p: ExtractedPageView| p.text), "\n"@)
}

/// The message when a PDF yields no text.
pub open spec fn no_text_message() -> Seq<char> {
    "No se pudo extraer texto del PDF. El archivo puede ser un PDF escaneado que requiere OCR."@
}

/// The single fragment of a PDF without detected chapters: the text of all
/// pages as one untitled chapter, with its progress report; an extraction
/// error when that text is blank.
pub fn plain_text_fragment(pages: &Vec<ExtractedPage>) -> (r: Result<(String, PipelineStatus), PdfPipelineError>)
    ensures
        trim(pages_text(page_views(pages@))).len() == 0 ==> (r matches Err(
            PdfPipelineError::ExtractionFailed(m),
        ) && m@ == no_text_message()),
        trim(pages_text(page_views(pages@))).len() > 0 ==> (r matches Ok((x, st)) && x@
            == chapter_xhtml(Seq::empty(), pages_text(page_views(pages@))) && st
            == PipelineStatus::ChunkProcessed { chunk_index: 0, output_chars: byte_len(x@) }),
{
    let mut full: Vec<char> = Vec::new();
    let mut i: usize = 0;
    let ghost texts = page_views(pages@).map_values(|p: ExtractedPageView| p.text);
    while i < pages.len()
        invariant
            i <= pages.len(),
            texts == page_views(pages@).map_values(|p: ExtractedPageView| p.text),
            full@ == join(texts.take(i as int), "\n"@),
        decreases pages.len() - i,
    {
        proof {
            assert(texts.take(i + 1).drop_last() == texts.take(i as int));
            assert(texts.take(i + 1).last() == pages@[i as int].text@);
        }
        if i > 0 {
            extend_str(&mut full, "\n");
        }
        extend_str(&mut full, pages[i].text.as_str());
        i += 1;
    }
    assert(texts.take(pages.len() as int) == texts);
    let t = trim_chars(&full);
    if t.len() == 0 {
        return Err(
            PdfPipelineError::ExtractionFailed(
                "No se pudo extraer texto del PDF. El archivo puede ser un PDF escaneado que requiere OCR.".to_string(),
            ),
        );
    }
    let chapter = Chapter { number: None, title: String::new(), body: string_of(&full) };
    let xhtml = SemanticStructurer::structure_chapter(&chapter);
    let n = utf8_len(&xhtml);
    Ok((xhtml, PipelineStatus::ChunkProcessed { chunk_index: 0, output_chars: n }))
}

/// Whether the chapters read from the layout XML are used: when the
/// reading succeeded and found at least one chapter; otherwise the pipeline
/// falls back to the plain text of the pages.
pub fn uses_layout_chapters(read: &Result<Vec<Chapter>, PdfPipelineError>) -> (b: bool)
    ensures
        b == (read matches Ok(cs) && cs@.len() > 0),
{
    match read {
        Ok(cs) => cs.len() > 0,
        Err(_) => false,
    }
}

/// The progress reports of fragments: one per fragment, with its index
/// and its length in bytes.
pub open spec fn chunk_statuses(fs: Seq<Seq<char>>) -> Seq<PipelineStatus> {
    Seq::new(
        fs.len(),
        |i: int| PipelineStatus::ChunkProcessed { chunk_index: i as usize, output_chars: byte_len(fs[i]) },
    )
}

/// The structuring stage of a PDF, given what the layout XML yielded and,
/// once needed, the pages of plain text. The chapters of the layout are
/// used when there are any: one fragment each. Otherwise the plain text is
/// needed (`None` until it is given); its pages become one untitled
/// chapter, or an extraction error when they hold no text.
pub fn structure_step(read: &Result<Vec<Chapter>, PdfPipelineError>, pages: Option<&Vec<ExtractedPage>>) -> (r:
    Option<Result<(Vec<String>, Vec<PipelineStatus>), PdfPipelineError>>)
    ensures
        match read {
            Ok(cs) if cs@.len() > 0 => r matches Some(Ok((fs, sts))) && crate::text::string_views(fs@)
                == chapter_fragments(chapter_views(cs@)) && sts@ == chunk_statuses(
                crate::text::string_views(fs@),
            ),
            _ => match pages {
                None => r is None,
                Some(ps) => if trim(pages_text(page_views(ps@))).len() == 0 {
                    r matches Some(Err(PdfPipelineError::ExtractionFailed(m))) && m@ == no_text_message()
                } else {
                    r matches Some(Ok((fs, sts))) && crate::text::string_views(fs@) == seq![
                        chapter_xhtml(Seq::empty(), pages_text(page_views(ps@))),
                    ] && sts@ == chunk_statuses(crate::text::string_views(fs@))
                },
            },
        },
{
    if uses_layout_chapters(read) {
        match read {
            Ok(cs) => {
                let (fs, sts) = chapters_to_xhtml(cs);
                assert(crate::text::string_views(fs@) =~= chapter_fragments(chapter_views(cs@)));
                assert(sts@ =~= chunk_statuses(crate::text::string_views(fs@)));
                return Some(Ok((fs, sts)));
            },
            Err(_) => {
                return None;
            },
        }
    }
    match pages {
        None => None,
        Some(ps) => match plain_text_fragment(ps) {
            Ok((x, st)) => {
                let mut fs: Vec<String> = Vec::new();
                let mut sts: Vec<PipelineStatus> = Vec::new();
                fs.push(x);
                sts.push(st);
                assert(crate::text::string_views(fs@) =~= seq![fs@[0]@]);
                assert(sts@ =~= chunk_statuses(crate::text::string_views(fs@)));
                Some(Ok((fs, sts)))
            },
            Err(e) => Some(Err(e)),
        },
    }
}

} // verus!
