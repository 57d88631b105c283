//! The values the HTTP API exchanges.
use vstd::prelude::*;
use vstd::string::*;
use crate::domain::model::{joined_text, ExtractedDocument, PageText};

verus! {

/// The answer to a health probe.
#[derive(Debug)]
pub struct HealthStatus {
    pub status: &'static str,
}

/// The body of an extraction request.
#[derive(Debug)]
pub struct ExtractRequest {
    pub document_base64: String,
}

/// The answer to a successful extraction.
#[derive(Debug)]
pub struct ExtractResponse {
    pub page_count: usize,
    pub pages: Vec<ExtractPage>,
    pub text: String,
    pub duration_ms: u64,
}

/// One page of an extraction answer.
#[derive(Debug)]
pub struct ExtractPage {
    pub page_number: u32,
    pub text: String,
}

impl From<PageText> for ExtractPage {
    fn from(page: PageText) -> (r: Self) {
        Self { page_number: page.page_number, text: page.text }
    }
}

impl vstd::std_specs::convert::FromSpecImpl<PageText> for ExtractPage {
    open spec fn obeys_from_spec() -> bool {
        true
    }

    open spec fn from_spec(page: PageText) -> Self {
        ExtractPage { page_number: page.page_number, text: page.text }
    }
}

impl ExtractResponse {
    /// The answer for an extracted document that took `duration_ms` milliseconds.
    pub fn from_extracted(document: ExtractedDocument, duration_ms: u64) -> (response: Self)
        ensures
            response.page_count == document.pages@.len(),
            response.text@ == joined_text(document.pages@),
            response.duration_ms == duration_ms,
            response.pages@.len() == document.pages@.len(),
            forall|i: int|
                0 <= i < response.pages@.len() ==> {
                    &&& #[trigger] response.pages@[i].page_number == document.pages@[i].page_number
                    &&& response.pages@[i].text@ == document.pages@[i].text@
                },
    {
        let page_count = document.page_count();
        let text = document.text();
        let ghost source = document.pages@;
        let mut pages: Vec<ExtractPage> = Vec::new();
        for page in iter: document.pages
            invariant
                iter.seq() == source,
                pages@.len() == iter.index(),
                forall|j: int|
                    0 <= j < pages@.len() ==> {
                        &&& #[trigger] pages@[j].page_number == source[j].page_number
                        &&& pages@[j].text@ == source[j].text@
                    },
        {
            let ghost k = pages@.len() as int;
            assert(page == source[k]);
            let converted = ExtractPage::from(page);
            assert(converted.page_number == source[k].page_number);
            pages.push(converted);
            assert(pages@[k] == converted);
        }
        assert(pages@.len() == source.len());
        assert(forall|i: int|
            0 <= i < pages@.len() ==> #[trigger] pages@[i].page_number == source[i].page_number
                && pages@[i].text@ == source[i].text@);
        Self { page_count, pages, text, duration_ms }
    }
}

} // verus!
