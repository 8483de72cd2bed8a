//! PDF → EPUB conversion: the data that flows through the pipeline and the
//! text logic of each stage.
use vstd::prelude::*;
use crate::markup::{decimal, decimal_chars};
use crate::text::{extend_chars, extend_str, string_of};

pub mod assembler;
pub mod extractor;
pub mod inline;
pub mod layout;
pub mod layout_xml;
pub mod pipeline;
pub mod semantic;

verus! {

/// A page of text extracted from a PDF.
#[derive(Debug, Clone)]
pub struct ExtractedPage {
    pub page_number: usize,
    pub text: String,
    pub source: ExtractionSource,
}

/// Where the text of a page came from.
#[derive(Debug, Clone, Copy, PartialEq, Eq, Structural)]
pub enum ExtractionSource {
    NativeText,
    Ocr,
}

/// A chapter reconstructed from a PDF: an optional number, a title (lines
/// separated by `'\n'`) and a body (paragraphs separated by blank lines).
#[derive(Debug, Clone)]
pub struct Chapter {
    pub number: Option<u32>,
    pub title: String,
    pub body: String,
}

/// The mathematical value of a chapter.
pub struct ChapterView {
    pub number: Option<u32>,
    pub title: Seq<char>,
    pub body: Seq<char>,
}

impl View for Chapter {
    type V = ChapterView;

    open spec fn view(&self) -> ChapterView {
        ChapterView { number: self.number, title: self.title@, body: self.body@ }
    }
}

/// The views of a sequence of chapters.
pub open spec fn chapter_views(cs: Seq<Chapter>) -> Seq<ChapterView> {
    cs.map_values(|c: Chapter| c@)
}

/// Progress reports of the conversion pipeline.
#[derive(Debug, Clone)]
pub enum PipelineStatus {
    ExtractionStarted { total_pages_hint: Option<usize> },
    /// Number of chapters that the layout analysis detected.
    PatternsDetected { patterns_count: usize },
    ChunkProcessed { chunk_index: usize, output_chars: usize },
    AssemblyStarted,
    XmlValidated { chunk_index: usize },
    XmlHeuristicRecovered { chunk_index: usize },
    Completed { epub_path: String, book_id: Option<i64> },
}

/// Errors of the conversion pipeline. Errors of outside libraries (I/O, ZIP,
/// the OCR runtime) arrive here as their message.
#[derive(Debug)]
pub enum PdfPipelineError {
    ExtractionFailed(String),
    OcrUnavailable(String),
    LlmInferenceFailed(String),
    AssemblyFailed(String),
    XmlValidationFailed { chunk_index: usize, reason: String },
    ModelNotFound { path: String },
    Zip(String),
    Path(String),
    Io(String),
    Other(String),
}

/// The message of a pipeline error: a Spanish description of the failure
/// and its detail; I/O and other errors show their own message.
pub open spec fn error_message(e: PdfPipelineError) -> Seq<char> {
    match e {
        PdfPipelineError::ExtractionFailed(s) => "Fallo en extracción de PDF: "@ + s@,
        PdfPipelineError::OcrUnavailable(s) => "OCR no disponible: "@ + s@,
        PdfPipelineError::LlmInferenceFailed(s) => "Inferencia de LLM fallida: "@ + s@,
        PdfPipelineError::AssemblyFailed(s) => "Ensamblado de EPUB fallido: "@ + s@,
        PdfPipelineError::XmlValidationFailed { chunk_index, reason } => "Validación XML fallida para chunk "@
            + decimal(chunk_index as nat) + ": "@ + reason@,
        PdfPipelineError::ModelNotFound { path } => "Modelo no encontrado en "@ + path@,
        PdfPipelineError::Zip(s) => "ZIP error: "@ + s@,
        PdfPipelineError::Path(s) => "Path error: "@ + s@,
        PdfPipelineError::Io(s) => s@,
        PdfPipelineError::Other(s) => s@,
    }
}

/// `prefix` followed by `s`.
fn prefixed_message(prefix: &str, s: &String) -> (r: String)
    ensures
        r@ == prefix@ + s@,
{
    let mut v: Vec<char> = Vec::new();
    extend_str(&mut v, prefix);
    extend_str(&mut v, s.as_str());
    string_of(&v)
}

impl PdfPipelineError {
    /// The message of the error.
    pub fn message(&self) -> (r: String)
        ensures
            r@ == error_message(*self),
    {
        match self {
            PdfPipelineError::ExtractionFailed(s) => prefixed_message("Fallo en extracción de PDF: ", s),
            PdfPipelineError::OcrUnavailable(s) => prefixed_message("OCR no disponible: ", s),
            PdfPipelineError::LlmInferenceFailed(s) => prefixed_message("Inferencia de LLM fallida: ", s),
            PdfPipelineError::AssemblyFailed(s) => prefixed_message("Ensamblado de EPUB fallido: ", s),
            PdfPipelineError::XmlValidationFailed { chunk_index, reason } => {
                let mut v: Vec<char> = Vec::new();
                extend_str(&mut v, "Validación XML fallida para chunk ");
                let d = decimal_chars(*chunk_index as u64);
                extend_chars(&mut v, &d);
                extend_str(&mut v, ": ");
                extend_str(&mut v, reason.as_str());
                string_of(&v)
            },
            PdfPipelineError::ModelNotFound { path } => prefixed_message("Modelo no encontrado en ", path),
            PdfPipelineError::Zip(s) => prefixed_message("ZIP error: ", s),
            PdfPipelineError::Path(s) => prefixed_message("Path error: ", s),
            PdfPipelineError::Io(s) => s.clone(),
            PdfPipelineError::Other(s) => s.clone(),
        }
    }
}

} // verus!
