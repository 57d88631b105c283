//! Extraction of the text of each page with `lopdf`.
use vstd::prelude::*;
use lopdf::Document;
use crate::domain::model::{ExtractedDocument, PageText};
use crate::domain::pdf_parser::ParsedPdf;

verus! {

/// What `lopdf::Document::extract_text_with_limit(&[page_number], limit)` gives for `document`:
/// the page's text, or `None` where it fails.
pub uninterp spec fn lopdf_page_text(document: Document, page_number: u32, limit: usize) -> Option<
    Seq<char>,
>;

/// The text of a page as the service reports it: what `lopdf` extracts, or empty text where
/// extraction fails.
pub open spec fn page_text_or_empty(document: Document, page_number: u32, limit: usize) -> Seq<
    char,
> {
    match lopdf_page_text(document, page_number, limit) {
        Some(text) => text,
        None => Seq::empty(),
    }
}

/// A page's reported text is exactly what `lopdf` extracts for it, whatever its length, and it
/// is empty only where `lopdf` fails.
pub proof fn lemma_page_text_is_lopdf_text(document: Document, page_number: u32, limit: usize)
    ensures
        lopdf_page_text(document, page_number, limit) matches Some(text) ==> page_text_or_empty(
            document,
            page_number,
            limit,
        ) == text,
        lopdf_page_text(document, page_number, limit) is None ==> page_text_or_empty(
            document,
            page_number,
            limit,
        ) == Seq::<char>::empty(),
{
}

/// Calls `lopdf::Document::extract_text_with_limit` on the single page `page_number`, with
/// the page's decompressed content bounded by `limit` bytes. The text, and whether it fails,
/// are decided by `lopdf`'s content decoder; the result is named, not described.
#[verifier::external_body]
fn extract_text_of_page(document: &Document, page_number: u32, limit: usize) -> (r: Result<
    String,
    lopdf::Error,
>)
    ensures
        r is Ok <==> lopdf_page_text(*document, page_number, limit) is Some,
        r matches Ok(text) ==> lopdf_page_text(*document, page_number, limit) == Some(text@),
{
    document.extract_text_with_limit(&[page_number], limit)
}

/// The page `page_number` with the extracted text, or with empty text where extraction failed.
pub fn page_text_from(page_number: u32, extracted: Result<String, lopdf::Error>) -> (page: PageText)
    ensures
        page.page_number == page_number,
        extracted matches Ok(text) ==> page.text@ == text@,
        extracted is Err ==> page.text@ == Seq::<char>::empty(),
{
    let text = match extracted {
        Ok(text) => text,
        Err(_) => String::new(),
    };
    PageText { page_number, text }
}

/// The text of page `page_number`; a page that cannot be read yields empty text.
pub fn extract_page(document: &Document, page_number: u32, limit: usize) -> (page: PageText)
    ensures
        page.page_number == page_number,
        page.text@ == page_text_or_empty(*document, page_number, limit),
        lopdf_page_text(*document, page_number, limit) matches Some(text) ==> page.text@ == text,
        lopdf_page_text(*document, page_number, limit) is None ==> page.text@ == Seq::<
            char,
        >::empty(),
{
    page_text_from(page_number, extract_text_of_page(document, page_number, limit))
}

/// The text of every page, in page order, one entry per page numbered from 1.
pub fn extract_document(parsed: &ParsedPdf, limit: usize) -> (extracted: ExtractedDocument)
    ensures
        extracted.pages@.len() == parsed.pages() as u32,
        forall|i: int|
            0 <= i < extracted.pages@.len() ==> {
                &&& #[trigger] extracted.pages@[i].page_number == i + 1
                &&& extracted.pages@[i].text@ == page_text_or_empty(
                    parsed.loaded(),
                    (i + 1) as u32,
                    limit,
                )
            },
{
    let count = parsed.page_count() as u32;
    let document = parsed.document();
    let mut pages: Vec<PageText> = Vec::new();
    let mut i: u32 = 0;
    while i < count
        invariant
            i <= count,
            count == parsed.pages() as u32,
            pages@.len() == i,
            *document == parsed.loaded(),
            forall|j: int|
                0 <= j < pages@.len() ==> {
                    &&& #[trigger] pages@[j].page_number == j + 1
                    &&& pages@[j].text@ == page_text_or_empty(parsed.loaded(), (j + 1) as u32, limit)
                },
        decreases count - i,
    {
        pages.push(extract_page(document, i + 1, limit));
        i = i + 1;
    }
    ExtractedDocument { pages }
}

} // verus!
