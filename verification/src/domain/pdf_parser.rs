//! Loading of the decoded bytes as a PDF document with `lopdf`.
use vstd::prelude::*;
use std::collections::BTreeMap;
use lopdf::Document;
use crate::domain::model::{DomainError, PdfBytes};
use crate::domain::pdf_utils::{has_pdf_signature, validate_pdf_signature};

verus! {

#[verifier::external_type_specification]
#[verifier::external_body]
pub struct ExLopdfDocument(lopdf::Document);

#[verifier::external_type_specification]
#[verifier::external_body]
pub struct ExLopdfError(lopdf::Error);

/// Whether `lopdf::Document::load_mem` loads `bytes` (it reads the bytes alone: no clock,
/// environment or randomness).
pub uninterp spec fn lopdf_loads(bytes: Seq<u8>) -> bool;

/// Whether `document` is a document that `lopdf::Document::load_mem` can return for `bytes`.
/// It is a relation, not a function of the bytes: loading large files in parallel may order
/// object-stream members differently from one load to the next.
pub uninterp spec fn lopdf_loaded_from(bytes: Seq<u8>, document: Document) -> bool;

/// What `lopdf::Document::get_pages` returns for `document`: page numbers to page object ids.
pub uninterp spec fn lopdf_pages(document: Document) -> Map<u32, (u32, u16)>;

/// Calls `lopdf::Document::load_mem`: it succeeds exactly when `lopdf` loads the bytes, and
/// then returns a document loaded from them. What the document holds is not described.
#[verifier::external_body]
fn load_document(bytes: &[u8]) -> (r: Result<Document, lopdf::Error>)
    ensures
        r is Ok <==> lopdf_loads(bytes@),
        r matches Ok(d) ==> lopdf_loaded_from(bytes@, d),
{
    Document::load_mem(bytes)
}

/// Calls `lopdf::Document::get_pages`: the page numbers of the document and the object ids of
/// its pages, as `lopdf` reads them from the page tree.
#[verifier::external_body]
fn document_pages(document: &Document) -> (pages: BTreeMap<u32, (u32, u16)>)
    ensures
        pages@ == lopdf_pages(*document),
{
    document.get_pages()
}

/// The number of pages `lopdf` finds in `document`.
pub open spec fn lopdf_page_count(document: Document) -> nat {
    lopdf_pages(document).len()
}

/// The page count is the number of entries in `lopdf`'s page map, with no cap.
pub proof fn lemma_page_count_is_page_map_size(document: Document)
    ensures
        lopdf_page_count(document) == lopdf_pages(document).len(),
{
}

/// A loaded document together with its number of pages.
#[derive(Debug)]
pub struct ParsedPdf {
    document: Document,
    page_count: usize,
}

impl ParsedPdf {
    /// The loaded document.
    pub closed spec fn loaded(&self) -> Document {
        self.document
    }

    /// The number of pages recorded at load time.
    pub closed spec fn pages(&self) -> usize {
        self.page_count
    }

    /// Wraps a loaded document and counts its pages.
    pub fn new(document: Document) -> (parsed: Self)
        ensures
            parsed.loaded() == document,
            parsed.pages() == lopdf_page_count(document),
            parsed.pages() == lopdf_pages(document).len(),
    {
        broadcast use vstd::std_specs::btree::group_btree_axioms;
        let pages = document_pages(&document);
        let page_count = pages.len();
        Self { document, page_count }
    }

    /// The number of pages.
    pub fn page_count(&self) -> (n: usize)
        ensures
            n == self.pages(),
    {
        self.page_count
    }

    /// The loaded document.
    pub fn document(&self) -> (document: &Document)
        ensures
            *document == self.loaded(),
    {
        &self.document
    }

    /// Gives the loaded document back.
    pub fn into_document(self) -> (document: Document)
        ensures
            document == self.loaded(),
    {
        self.document
    }
}

/// Turns the outcome of loading into a parsed document or `PdfParse`.
pub fn parsed_from_load(loaded: Result<Document, lopdf::Error>) -> (r: Result<ParsedPdf, DomainError>)
    ensures
        loaded matches Ok(d) ==> r matches Ok(p) && p.loaded() == d && p.pages()
            == lopdf_page_count(d) && p.pages() == lopdf_pages(d).len(),
        loaded is Err ==> r == Err::<ParsedPdf, DomainError>(DomainError::PdfParse),
{
    match loaded {
        Ok(document) => Ok(ParsedPdf::new(document)),
        Err(_) => Err(DomainError::PdfParse),
    }
}

/// Checks the signature, then loads the document.
pub fn parse_pdf(pdf: &PdfBytes) -> (r: Result<ParsedPdf, DomainError>)
    ensures
        !has_pdf_signature(pdf@) ==> r == Err::<ParsedPdf, DomainError>(
            DomainError::InvalidPdfSignature,
        ),
        has_pdf_signature(pdf@) ==> (r is Ok <==> lopdf_loads(pdf@)),
        has_pdf_signature(pdf@) && !lopdf_loads(pdf@) ==> r == Err::<ParsedPdf, DomainError>(
            DomainError::PdfParse,
        ),
        r matches Ok(p) ==> p.pages() == lopdf_pages(p.loaded()).len(),
        r matches Ok(p) ==> p.pages() == lopdf_page_count(p.loaded()) && lopdf_loaded_from(
            pdf@,
            p.loaded(),
        ),
{
    if let Err(e) = validate_pdf_signature(pdf.as_bytes()) {
        return Err(e);
    }
    parsed_from_load(load_document(pdf.as_bytes()))
}

} // verus!
