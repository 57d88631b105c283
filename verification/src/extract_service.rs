//! The extraction pipeline: decode the payload, check and load the PDF, extract its pages.
use vstd::prelude::*;
use crate::domain::base64_decoder::{decode_base64, decoded_payload_spec};
use crate::domain::model::{DomainError, ExtractedDocument};
use crate::domain::page_extractor::{extract_document, page_text_or_empty};
use crate::domain::pdf_parser::{lopdf_loaded_from, lopdf_loads, lopdf_page_count, parse_pdf, ParsedPdf};
use lopdf::Document;
use crate::domain::pdf_utils::has_pdf_signature;

verus! {

/// Whether `r` is the outcome that the pipeline owes a payload: the first failing stage
/// decides the error, in the order decoding, signature, loading; a payload that passes all
/// three succeeds.
pub open spec fn pipeline_outcome<T>(payload: Seq<u8>, r: Result<T, DomainError>) -> bool {
    match decoded_payload_spec(payload) {
        None => r == Err::<T, DomainError>(DomainError::Base64Decode),
        Some(bytes) => if !has_pdf_signature(bytes) {
            r == Err::<T, DomainError>(DomainError::InvalidPdfSignature)
        } else {
            if lopdf_loads(bytes) {
                r is Ok
            } else {
                r == Err::<T, DomainError>(DomainError::PdfParse)
            }
        },
    }
}

/// Whether `loaded` is a document `lopdf` loads from the bytes that `payload` decodes to.
pub open spec fn loaded_from_payload(payload: Seq<u8>, loaded: Document) -> bool {
    match decoded_payload_spec(payload) {
        Some(bytes) => lopdf_loaded_from(bytes, loaded),
        None => false,
    }
}

/// Whether `document` holds, in order, every page `lopdf` finds in `loaded`, numbered from 1,
/// each with the text extracted under `limit` (empty where extraction fails).
pub open spec fn extracted_from(document: ExtractedDocument, loaded: Document, limit: usize) -> bool {
    &&& document.pages@.len() == lopdf_page_count(loaded) as u32
    &&& forall|i: int|
        0 <= i < document.pages@.len() ==> {
            &&& #[trigger] document.pages@[i].page_number == i + 1
            &&& document.pages@[i].text@ == page_text_or_empty(loaded, (i + 1) as u32, limit)
        }
}

/// Decodes the payload and loads the PDF it holds.
pub fn decode_and_parse(payload: &[u8]) -> (r: Result<ParsedPdf, DomainError>)
    ensures
        pipeline_outcome(payload@, r),
        r matches Ok(parsed) ==> {
            &&& parsed.pages() == lopdf_page_count(parsed.loaded())
            &&& loaded_from_payload(payload@, parsed.loaded())
        },
{
    let pdf = match decode_base64(payload) {
        Ok(pdf) => pdf,
        Err(e) => return Err(e),
    };
    parse_pdf(&pdf)
}

/// Runs the whole pipeline on one payload, extracting the pages one after another.
pub fn extract_payload(payload: &[u8], limit: usize) -> (r: Result<ExtractedDocument, DomainError>)
    ensures
        pipeline_outcome(payload@, r),
        r matches Ok(document) ==> exists|loaded: Document|
            #[trigger] loaded_from_payload(payload@, loaded) && extracted_from(
                document,
                loaded,
                limit,
            ),
{
    let parsed = match decode_and_parse(payload) {
        Ok(parsed) => parsed,
        Err(e) => return Err(e),
    };
    let document = extract_document(&parsed, limit);
    let ghost loaded = parsed.loaded();
    assert forall|i: int| 0 <= i < document.pages@.len() implies {
        &&& #[trigger] document.pages@[i].page_number == i + 1
        &&& document.pages@[i].text@ == page_text_or_empty(loaded, (i + 1) as u32, limit)
    } by {
        assert(document.pages@[i].page_number == i + 1);
    }
    assert(loaded_from_payload(payload@, loaded) && extracted_from(document, loaded, limit));
    Ok(document)
}

} // verus!
