//! The domain's values: decoded PDF bytes, extracted pages and the errors of the pipeline.
use vstd::prelude::*;
use vstd::string::*;

verus! {

/// The bytes of a decoded PDF payload.
#[derive(Debug, PartialEq, Eq)]
pub struct PdfBytes {
    bytes: Vec<u8>,
}

impl View for PdfBytes {
    type V = Seq<u8>;

    closed spec fn view(&self) -> Seq<u8> {
        self.bytes@
    }
}

impl PdfBytes {
    /// Wraps decoded bytes.
    pub fn new(bytes: Vec<u8>) -> (pdf: Self)
        ensures
            pdf@ == bytes@,
    {
        Self { bytes }
    }

    /// The wrapped bytes, unchanged.
    pub fn as_bytes(&self) -> (bytes: &[u8])
        ensures
            bytes@ == self@,
    {
        self.bytes.as_slice()
    }
}

/// What can go wrong between a payload and its extracted text.
#[derive(Debug, PartialEq, Eq, Structural)]
pub enum DomainError {
    Base64Decode,
    InvalidPdfSignature,
    PdfParse,
    Extraction,
}

/// The text of one page, with its 1-based page number.
#[derive(Debug, PartialEq, Eq)]
pub struct PageText {
    pub page_number: u32,
    pub text: String,
}

/// The pages of a document, in page-number order.
#[derive(Debug, PartialEq, Eq)]
pub struct ExtractedDocument {
    pub pages: Vec<PageText>,
}

/// The texts of `pages` joined in order, with nothing between them.
pub open spec fn joined_text(pages: Seq<PageText>) -> Seq<char>
    decreases pages.len(),
{
    if pages.len() == 0 {
        Seq::empty()
    } else {
        joined_text(pages.drop_last()) + pages.last().text@
    }
}

/// The sum of the lengths, in characters, of the texts of `pages`.
pub open spec fn total_text_len(pages: Seq<PageText>) -> nat
    decreases pages.len(),
{
    if pages.len() == 0 {
        0
    } else {
        total_text_len(pages.drop_last()) + pages.last().text@.len()
    }
}

/// The joined text is exactly as long as the page texts together.
pub proof fn lemma_joined_text_len(pages: Seq<PageText>)
    ensures
        joined_text(pages).len() == total_text_len(pages),
    decreases pages.len(),
{
    if pages.len() > 0 {
        lemma_joined_text_len(pages.drop_last());
    }
}

/// The full text of no pages is empty, and the full text of pages followed by one more page
/// is the full text of the pages followed by that page's text: the texts are joined in page
/// order, each exactly once, with nothing between them.
pub proof fn lemma_joined_text_appends_in_order(pages: Seq<PageText>, page: PageText)
    ensures
        joined_text(Seq::<PageText>::empty()) == Seq::<char>::empty(),
        joined_text(pages.push(page)) == joined_text(pages) + page.text@,
{
    assert(pages.push(page).drop_last() =~= pages);
}

/// Joining two runs of pages one after the other gives the two full texts one after the other.
pub proof fn lemma_joined_text_concat(first: Seq<PageText>, second: Seq<PageText>)
    ensures
        joined_text(first + second) == joined_text(first) + joined_text(second),
    decreases second.len(),
{
    if second.len() == 0 {
        assert(first + second =~= first);
        assert(joined_text(first) + joined_text(second) =~= joined_text(first));
    } else {
        lemma_joined_text_concat(first, second.drop_last());
        assert((first + second).drop_last() =~= first + second.drop_last());
        assert(joined_text(first + second) =~= joined_text(first) + joined_text(second));
    }
}

/// Calls `String::with_capacity`, which returns an empty string (with room for at least
/// `capacity` bytes; the room it allocates is not stated).
#[verifier::external_body]
fn string_with_capacity(capacity: usize) -> (s: String)
    ensures
        s@ == Seq::<char>::empty(),
{
    String::with_capacity(capacity)
}

impl ExtractedDocument {
    /// The number of pages.
    pub fn page_count(&self) -> (n: usize)
        ensures
            n == self.pages@.len(),
    {
        self.pages.len()
    }

    /// The texts of all pages joined in page order.
    pub fn text(&self) -> (text: String)
        ensures
            text@ == joined_text(self.pages@),
    {
        let mut capacity: usize = 0;
        let mut k: usize = 0;
        while k < self.pages.len()
            invariant
                k <= self.pages@.len(),
            decreases self.pages@.len() - k,
        {
            capacity = capacity.saturating_add(self.pages[k].text.as_str().len());
            k = k + 1;
        }
        let mut text = string_with_capacity(capacity);
        let mut i: usize = 0;
        while i < self.pages.len()
            invariant
                i <= self.pages@.len(),
                text@ == joined_text(self.pages@.take(i as int)),
            decreases self.pages@.len() - i,
        {
            text.append(self.pages[i].text.as_str());
            assert(self.pages@.take(i + 1).drop_last() =~= self.pages@.take(i as int));
            i = i + 1;
        }
        assert(self.pages@.take(i as int) =~= self.pages@);
        text
    }
}

} // verus!
