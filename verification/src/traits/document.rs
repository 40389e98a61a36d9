//! Document parsing: configuration, the structure a parser yields, and the
//! supported formats with their MIME types and extensions.

use vstd::prelude::*;
use crate::text::{ascii_lowercase, is_ascii_text, same_text, to_lowercase, unicode_lowercase};

verus! {

/// Configuration for document parsing.
#[derive(Clone, Copy, Debug)]
pub struct DocumentConfig {
    pub enabled: bool,
    /// Maximum file size in bytes.
    pub max_size_bytes: u64,
    pub chunk_strategy: ChunkStrategy,
    /// Target chunk size in characters (for fixed chunking).
    pub chunk_size: usize,
    /// Overlap between chunks in characters.
    pub chunk_overlap: usize,
    /// Extract embedded images for vision processing.
    pub extract_images: bool,
    /// Wait for parsing instead of running it in the background.
    pub sync_processing: bool,
}

impl Default for DocumentConfig {
    /// Disabled; 50 MiB; structural chunks of 1500 characters overlapping
    /// by 200; no images; background processing.
    fn default() -> (r: DocumentConfig)
        ensures
            !r.enabled,
            r.max_size_bytes == 50 * 1024 * 1024,
            r.chunk_strategy == ChunkStrategy::ByStructure,
            r.chunk_size == 1500,
            r.chunk_overlap == 200,
            !r.extract_images,
            !r.sync_processing,
    {
        DocumentConfig {
            enabled: false,
            max_size_bytes: 50 * 1024 * 1024,
            chunk_strategy: ChunkStrategy::ByStructure,
            chunk_size: 1500,
            chunk_overlap: 200,
            extract_images: false,
            sync_processing: false,
        }
    }
}

/// Chunking strategy for documents.
#[derive(Clone, Copy, PartialEq, Eq, Debug, Structural)]
pub enum ChunkStrategy {
    /// By document structure (headings, paragraphs, sections).
    ByStructure,
    /// Fixed-size chunks with overlap.
    Fixed,
    /// One chunk per page.
    Page,
}

impl Default for ChunkStrategy {
    fn default() -> (r: ChunkStrategy)
        ensures
            r == ChunkStrategy::ByStructure,
    {
        ChunkStrategy::ByStructure
    }
}

/// Result of parsing a document.
#[derive(Clone, Debug)]
pub struct ParsedDocument {
    pub title: Option<String>,
    pub author: Option<String>,
    pub created_at: Option<String>,
    pub page_count: u32,
    pub char_count: usize,
    pub chunks: Vec<DocumentChunk>,
    pub images: Vec<EmbeddedImage>,
    pub toc: Vec<TocEntry>,
}

/// A chunk of document text with its location.
#[derive(Clone, Debug)]
pub struct DocumentChunk {
    /// Chunk index (0-based).
    pub index: u32,
    pub text: String,
    /// Page (1-based) where the chunk starts.
    pub page: u32,
    pub section: Option<String>,
    pub chunk_type: ChunkType,
    /// Character offset in the original document.
    pub char_offset: usize,
    pub char_count: usize,
}

/// Type of document chunk.
#[derive(Clone, Copy, PartialEq, Eq, Debug, Structural)]
pub enum ChunkType {
    Title,
    Heading,
    Paragraph,
    Table,
    List,
    Code,
    Footnote,
    Caption,
    Mixed,
}

/// An image embedded in a document.
#[derive(Clone, Debug)]
pub struct EmbeddedImage {
    pub index: u32,
    pub page: u32,
    /// Image bytes (PNG or JPEG).
    pub data: Vec<u8>,
    pub mime_type: String,
    pub width: Option<u32>,
    pub height: Option<u32>,
    pub alt_text: Option<String>,
}

/// Table of contents entry.
#[derive(Clone, Debug)]
pub struct TocEntry {
    pub text: String,
    /// Heading level (1 = H1).
    pub level: u8,
    /// Page (1-based).
    pub page: u32,
}

/// Supported document formats.
#[derive(Clone, Copy, PartialEq, Eq, Debug, Structural)]
pub enum DocumentFormat {
    Pdf,
    Docx,
    Doc,
    Pptx,
    Xlsx,
    Rtf,
    Txt,
    Markdown,
    Html,
    Epub,
}

pub open spec fn document_media_type(f: DocumentFormat) -> Seq<char> {
    match f {
        DocumentFormat::Pdf => "application/pdf"@,
        DocumentFormat::Docx => "application/vnd.openxmlformats-officedocument.wordprocessingml.document"@,
        DocumentFormat::Doc => "application/msword"@,
        DocumentFormat::Pptx => "application/vnd.openxmlformats-officedocument.presentationml.presentation"@,
        DocumentFormat::Xlsx => "application/vnd.openxmlformats-officedocument.spreadsheetml.sheet"@,
        DocumentFormat::Rtf => "application/rtf"@,
        DocumentFormat::Txt => "text/plain"@,
        DocumentFormat::Markdown => "text/markdown"@,
        DocumentFormat::Html => "text/html"@,
        DocumentFormat::Epub => "application/epub+zip"@,
    }
}

/// The format named by an already lowercased MIME type.
pub open spec fn document_format_of(m: Seq<char>) -> Option<DocumentFormat> {
    if m == "application/pdf"@ {
        Some(DocumentFormat::Pdf)
    } else if m == "application/vnd.openxmlformats-officedocument.wordprocessingml.document"@ {
        Some(DocumentFormat::Docx)
    } else if m == "application/msword"@ {
        Some(DocumentFormat::Doc)
    } else if m == "application/vnd.openxmlformats-officedocument.presentationml.presentation"@ {
        Some(DocumentFormat::Pptx)
    } else if m == "application/vnd.openxmlformats-officedocument.spreadsheetml.sheet"@ {
        Some(DocumentFormat::Xlsx)
    } else if m == "application/rtf"@ || m == "text/rtf"@ {
        Some(DocumentFormat::Rtf)
    } else if m == "text/plain"@ {
        Some(DocumentFormat::Txt)
    } else if m == "text/markdown"@ || m == "text/x-markdown"@ {
        Some(DocumentFormat::Markdown)
    } else if m == "text/html"@ || m == "application/xhtml+xml"@ {
        Some(DocumentFormat::Html)
    } else if m == "application/epub+zip"@ {
        Some(DocumentFormat::Epub)
    } else {
        None
    }
}

pub open spec fn document_extension(f: DocumentFormat) -> Seq<char> {
    match f {
        DocumentFormat::Pdf => "pdf"@,
        DocumentFormat::Docx => "docx"@,
        DocumentFormat::Doc => "doc"@,
        DocumentFormat::Pptx => "pptx"@,
        DocumentFormat::Xlsx => "xlsx"@,
        DocumentFormat::Rtf => "rtf"@,
        DocumentFormat::Txt => "txt"@,
        DocumentFormat::Markdown => "md"@,
        DocumentFormat::Html => "html"@,
        DocumentFormat::Epub => "epub"@,
    }
}

impl DocumentFormat {
    /// The MIME type of this format.
    pub fn media_type(&self) -> (r: &'static str)
        ensures
            r@ == document_media_type(*self),
    {
        match self {
            DocumentFormat::Pdf => "application/pdf",
            DocumentFormat::Docx => "application/vnd.openxmlformats-officedocument.wordprocessingml.document",
            DocumentFormat::Doc => "application/msword",
            DocumentFormat::Pptx => "application/vnd.openxmlformats-officedocument.presentationml.presentation",
            DocumentFormat::Xlsx => "application/vnd.openxmlformats-officedocument.spreadsheetml.sheet",
            DocumentFormat::Rtf => "application/rtf",
            DocumentFormat::Txt => "text/plain",
            DocumentFormat::Markdown => "text/markdown",
            DocumentFormat::Html => "text/html",
            DocumentFormat::Epub => "application/epub+zip",
        }
    }

    /// The format of a MIME type, ignoring case.
    pub fn from_mime(mime: &str) -> (r: Option<DocumentFormat>)
        ensures
            r == document_format_of(unicode_lowercase(mime@)),
            is_ascii_text(mime@) ==> r == document_format_of(ascii_lowercase(mime@)),
    {
        let lower = to_lowercase(mime);
        let m = lower.as_str();
        if same_text(m, "application/pdf") {
            Some(DocumentFormat::Pdf)
        } else if same_text(m, "application/vnd.openxmlformats-officedocument.wordprocessingml.document") {
            Some(DocumentFormat::Docx)
        } else if same_text(m, "application/msword") {
            Some(DocumentFormat::Doc)
        } else if same_text(m, "application/vnd.openxmlformats-officedocument.presentationml.presentation") {
            Some(DocumentFormat::Pptx)
        } else if same_text(m, "application/vnd.openxmlformats-officedocument.spreadsheetml.sheet") {
            Some(DocumentFormat::Xlsx)
        } else if same_text(m, "application/rtf") || same_text(m, "text/rtf") {
            Some(DocumentFormat::Rtf)
        } else if same_text(m, "text/plain") {
            Some(DocumentFormat::Txt)
        } else if same_text(m, "text/markdown") || same_text(m, "text/x-markdown") {
            Some(DocumentFormat::Markdown)
        } else if same_text(m, "text/html") || same_text(m, "application/xhtml+xml") {
            Some(DocumentFormat::Html)
        } else if same_text(m, "application/epub+zip") {
            Some(DocumentFormat::Epub)
        } else {
            None
        }
    }

    /// The file extension of this format.
    pub fn extension(&self) -> (r: &'static str)
        ensures
            r@ == document_extension(*self),
    {
        match self {
            DocumentFormat::Pdf => "pdf",
            DocumentFormat::Docx => "docx",
            DocumentFormat::Doc => "doc",
            DocumentFormat::Pptx => "pptx",
            DocumentFormat::Xlsx => "xlsx",
            DocumentFormat::Rtf => "rtf",
            DocumentFormat::Txt => "txt",
            DocumentFormat::Markdown => "md",
            DocumentFormat::Html => "html",
            DocumentFormat::Epub => "epub",
        }
    }
}

/// A document format's MIME type is ASCII, and parsing it gives the format back.
pub proof fn lemma_document_mime_round_trip(f: DocumentFormat, parsed: Option<DocumentFormat>)
    requires
        parsed == document_format_of(ascii_lowercase(document_media_type(f))),
    ensures
        is_ascii_text(document_media_type(f)),
        parsed == Some(f),
{
    reveal_strlit("application/epub+zip");
    reveal_strlit("application/msword");
    reveal_strlit("application/pdf");
    reveal_strlit("application/rtf");
    reveal_strlit("application/vnd.openxmlformats-officedocument.presentationml.presentation");
    reveal_strlit("application/vnd.openxmlformats-officedocument.spreadsheetml.sheet");
    reveal_strlit("application/vnd.openxmlformats-officedocument.wordprocessingml.document");
    reveal_strlit("application/xhtml+xml");
    reveal_strlit("text/html");
    reveal_strlit("text/markdown");
    reveal_strlit("text/plain");
    reveal_strlit("text/rtf");
    reveal_strlit("text/x-markdown");
    let l = document_media_type(f);
    assert(ascii_lowercase(l) =~= l);
    match f {
        DocumentFormat::Pdf => {},
        DocumentFormat::Docx => {
            assert(l.len() != "application/pdf"@.len());
        },
        DocumentFormat::Doc => {
            assert(l.len() != "application/pdf"@.len() && l.len() != "application/vnd.openxmlformats-officedocument.wordprocessingml.document"@.len());
        },
        DocumentFormat::Pptx => {
            assert(l.len() != "application/pdf"@.len() && l.len() != "application/vnd.openxmlformats-officedocument.wordprocessingml.document"@.len() && l.len() != "application/msword"@.len());
        },
        DocumentFormat::Xlsx => {
            assert(l.len() != "application/pdf"@.len() && l.len() != "application/vnd.openxmlformats-officedocument.wordprocessingml.document"@.len() && l.len() != "application/msword"@.len() && l.len() != "application/vnd.openxmlformats-officedocument.presentationml.presentation"@.len());
        },
        DocumentFormat::Rtf => {
            assert(l[12] != "application/pdf"@[12] && l.len() != "application/vnd.openxmlformats-officedocument.wordprocessingml.document"@.len() && l.len() != "application/msword"@.len() && l.len() != "application/vnd.openxmlformats-officedocument.presentationml.presentation"@.len() && l.len() != "application/vnd.openxmlformats-officedocument.spreadsheetml.sheet"@.len());
        },
        DocumentFormat::Txt => {
            assert(l.len() != "application/pdf"@.len() && l.len() != "application/vnd.openxmlformats-officedocument.wordprocessingml.document"@.len() && l.len() != "application/msword"@.len() && l.len() != "application/vnd.openxmlformats-officedocument.presentationml.presentation"@.len() && l.len() != "application/vnd.openxmlformats-officedocument.spreadsheetml.sheet"@.len() && l.len() != "application/rtf"@.len() && l.len() != "text/rtf"@.len());
        },
        DocumentFormat::Markdown => {
            assert(l.len() != "application/pdf"@.len() && l.len() != "application/vnd.openxmlformats-officedocument.wordprocessingml.document"@.len() && l.len() != "application/msword"@.len() && l.len() != "application/vnd.openxmlformats-officedocument.presentationml.presentation"@.len() && l.len() != "application/vnd.openxmlformats-officedocument.spreadsheetml.sheet"@.len() && l.len() != "application/rtf"@.len() && l.len() != "text/rtf"@.len() && l.len() != "text/plain"@.len());
        },
        DocumentFormat::Html => {
            assert(l.len() != "application/pdf"@.len() && l.len() != "application/vnd.openxmlformats-officedocument.wordprocessingml.document"@.len() && l.len() != "application/msword"@.len() && l.len() != "application/vnd.openxmlformats-officedocument.presentationml.presentation"@.len() && l.len() != "application/vnd.openxmlformats-officedocument.spreadsheetml.sheet"@.len() && l.len() != "application/rtf"@.len() && l.len() != "text/rtf"@.len() && l.len() != "text/plain"@.len() && l.len() != "text/markdown"@.len() && l.len() != "text/x-markdown"@.len());
        },
        DocumentFormat::Epub => {
            assert(l.len() != "application/pdf"@.len() && l.len() != "application/vnd.openxmlformats-officedocument.wordprocessingml.document"@.len() && l.len() != "application/msword"@.len() && l.len() != "application/vnd.openxmlformats-officedocument.presentationml.presentation"@.len() && l.len() != "application/vnd.openxmlformats-officedocument.spreadsheetml.sheet"@.len() && l.len() != "application/rtf"@.len() && l.len() != "text/rtf"@.len() && l.len() != "text/plain"@.len() && l.len() != "text/markdown"@.len() && l.len() != "text/x-markdown"@.len() && l.len() != "text/html"@.len() && l.len() != "application/xhtml+xml"@.len());
        },
    }
}

} // verus!
